//! The query language of the analytical data store: a pipeline of
//! operations separated by `|`, each either `filter <conditions>` or
//! `group <aggregation>`.
use crate::text::{
    contains, find_from, find_str, i32_of, lemma_find_from_skip, lemma_split_from_nonempty, matches_at, parse_i32, split,
    split_str, strip_prefix, strip_prefix_str, trim, trim_str, views,
};
use vstd::prelude::*;
use vstd::string::*;

verus! {

/// The longest chain of operations a query may hold.
pub const MAX_OPERATIONS: usize = 1001;

/// Error raised while parsing a query, carrying a human-readable context.
#[derive(Debug)]
pub struct ParseError {
    pub context: String,
}

impl ParseError {
    pub fn new(context: &str) -> (r: Self)
        ensures
            r.context@ == context@,
    {
        ParseError { context: context.to_owned() }
    }

    /// The context, as the error displays it.
    pub fn message(&self) -> (r: String)
        ensures
            r@ == self.context@,
    {
        self.context.as_str().to_owned()
    }
}

#[derive(Debug, PartialEq)]
pub enum FilterValue {
    Int(i32),
    Str(String),
}

/// The mathematical value of a `FilterValue`.
pub enum FilterModel {
    Int(i32),
    Str(Seq<char>),
}

impl View for FilterValue {
    type V = FilterModel;

    open spec fn view(&self) -> FilterModel {
        match self {
            FilterValue::Int(n) => FilterModel::Int(*n),
            FilterValue::Str(s) => FilterModel::Str(s@),
        }
    }
}

#[derive(Debug, PartialEq)]
pub struct Condition {
    pub column: String,
    pub filter: FilterValue,
}

impl View for Condition {
    type V = (Seq<char>, FilterModel);

    open spec fn view(&self) -> (Seq<char>, FilterModel) {
        (self.column@, self.filter@)
    }
}

#[derive(Clone, Copy, Debug, PartialEq, Eq)]
pub enum GroupFunctions {
    TimeBucket(i32),
}

#[derive(Clone, Copy, Debug, PartialEq, Eq)]
pub enum AggregationFunction {
    Count,
}

#[derive(Clone, Copy, Debug, PartialEq, Eq)]
pub struct Aggregation {
    pub function: AggregationFunction,
    pub group_by: Option<GroupFunctions>,
}

#[derive(Debug, PartialEq)]
pub enum Operation {
    Filter(Vec<Condition>),
    Group(Aggregation),
}

/// The mathematical value of an `Operation`.
pub enum OperationModel {
    Filter(Seq<(Seq<char>, FilterModel)>),
    Group(Aggregation),
}

pub open spec fn condition_views(cs: Seq<Condition>) -> Seq<(Seq<char>, FilterModel)> {
    cs.map_values(|c: Condition| c@)
}

impl View for Operation {
    type V = OperationModel;

    open spec fn view(&self) -> OperationModel {
        match self {
            Operation::Filter(cs) => OperationModel::Filter(condition_views(cs@)),
            Operation::Group(a) => OperationModel::Group(*a),
        }
    }
}

pub open spec fn operation_views(ops: Seq<Operation>) -> Seq<OperationModel> {
    ops.map_values(|o: Operation| o@)
}

/// One operation of a query and the rest of the pipeline after it.
#[derive(Debug, PartialEq)]
pub struct OperationNode {
    pub operation: Operation,
    pub child: Option<Box<OperationNode>>,
}

/// The operations of the chain that starts at `n`, in order.
pub open spec fn chain(n: OperationNode) -> Seq<OperationModel>
    decreases n,
{
    match n.child {
        Some(c) => seq![n.operation@] + chain(*c),
        None => seq![n.operation@],
    }
}

#[derive(Debug, PartialEq)]
pub struct Query {
    pub root: OperationNode,
}

impl View for Query {
    type V = Seq<OperationModel>;

    open spec fn view(&self) -> Seq<OperationModel> {
        chain(self.root)
    }
}

/// A filter value: a single-quoted string, or else a decimal `i32`.
pub open spec fn filter_value_of(v: Seq<char>) -> Result<FilterModel, Seq<char>> {
    if v.len() > 1 && v[0] == '\'' && v.last() == '\'' {
        Ok(FilterModel::Str(v.subrange(1, v.len() - 1)))
    } else {
        match i32_of(v) {
            Some(n) => Ok(FilterModel::Int(n)),
            None => Err("String values must be enclosed in single quotes"@),
        }
    }
}

/// A condition `column = value`, with exactly one `=`.
pub open spec fn condition_of(part: Seq<char>) -> Result<(Seq<char>, FilterModel), Seq<char>> {
    let sides = split(part, "="@);
    if sides.len() != 2 {
        Err("Each condition must contain exactly one '=' character"@)
    } else {
        match filter_value_of(trim(sides[1])) {
            Ok(f) => Ok((trim(sides[0]), f)),
            Err(m) => Err(m),
        }
    }
}

/// The conditions written in `pieces` (the text between the `AND`s), blank
/// pieces skipped; the complaint about the first malformed one otherwise.
pub open spec fn conditions_of(pieces: Seq<Seq<char>>) -> Result<
    Seq<(Seq<char>, FilterModel)>,
    Seq<char>,
>
    decreases pieces.len(),
{
    if pieces.len() == 0 {
        Ok(seq![])
    } else {
        match conditions_of(pieces.drop_last()) {
            Err(m) => Err(m),
            Ok(cs) => {
                let p = trim(pieces.last());
                if p.len() == 0 {
                    Ok(cs)
                } else {
                    match condition_of(p) {
                        Ok(c) => Ok(cs.push(c)),
                        Err(m) => Err(m),
                    }
                }
            },
        }
    }
}

/// The first piece that is not blank, trimmed.
pub open spec fn first_nonblank(pieces: Seq<Seq<char>>) -> Option<Seq<char>>
    decreases pieces.len(),
{
    if pieces.len() == 0 {
        None
    } else if trim(pieces[0]).len() > 0 {
        Some(trim(pieces[0]))
    } else {
        first_nonblank(pieces.drop_first())
    }
}

/// The size in `timebucket(<size>)`, at its first occurrence in `input`.
pub open spec fn bucket_of(input: Seq<char>) -> Result<i32, Seq<char>> {
    match find_from(input, "timebucket("@, 0) {
        None => Err("Unsupported aggregation function"@),
        Some(st) => match find_from(input, ")"@, st) {
            None => Err("Missing closing parenthesis for timebucket"@),
            Some(end) => match i32_of(trim(input.subrange(st + "timebucket("@.len(), end))) {
                Some(n) => Ok(n),
                None => Err("Invalid bucket size"@),
            },
        },
    }
}

/// An aggregation `count() BY timebucket(<size>)`.
pub open spec fn aggregation_of(input: Seq<char>) -> Result<Aggregation, Seq<char>> {
    let head = match first_nonblank(split(input, "BY"@)) {
        Some(h) => h,
        None => seq![],
    };
    if !contains(head, "count()"@) {
        Err("Unsupported group function: "@ + head)
    } else {
        match bucket_of(input) {
            Ok(n) => Ok(
                Aggregation {
                    function: AggregationFunction::Count,
                    group_by: Some(GroupFunctions::TimeBucket(n)),
                },
            ),
            Err(m) => Err(m),
        }
    }
}

/// One stage of the pipeline: `filter ...` or `group ...`.
pub open spec fn operation_of(part: Seq<char>) -> Result<OperationModel, Seq<char>> {
    let p = trim(part);
    match strip_prefix(p, "filter"@) {
        Some(rest) => match conditions_of(split(trim(rest), "AND"@)) {
            Ok(cs) => Ok(OperationModel::Filter(cs)),
            Err(m) => Err(m),
        },
        None => match strip_prefix(p, "group"@) {
            Some(rest) => match aggregation_of(trim(rest)) {
                Ok(a) => Ok(OperationModel::Group(a)),
                Err(m) => Err(m),
            },
            None => Err("Unsupported operation"@),
        },
    }
}

/// The operations of a pipeline split at `|`; the complaint about the first
/// malformed stage, or about more than `MAX_OPERATIONS` of them, otherwise.
pub open spec fn operations_of(parts: Seq<Seq<char>>) -> Result<Seq<OperationModel>, Seq<char>>
    decreases parts.len(),
{
    if parts.len() == 0 {
        Ok(seq![])
    } else {
        match operations_of(parts.drop_last()) {
            Err(m) => Err(m),
            Ok(ops) => match operation_of(parts.last()) {
                Ok(o) => if ops.len() >= MAX_OPERATIONS {
                    Err("Exceeded query operator limit"@)
                } else {
                    Ok(ops.push(o))
                },
                Err(m) => Err(m),
            },
        }
    }
}

/// The query that `input` denotes, or the complaint about it.
pub open spec fn query_of(input: Seq<char>) -> Result<Seq<OperationModel>, Seq<char>> {
    operations_of(split(input, "|"@))
}

proof fn lemma_conditions_none_extends(pieces: Seq<Seq<char>>, k: int, j: int)
    requires
        0 <= k <= j <= pieces.len(),
        conditions_of(pieces.subrange(0, k)) is Err,
    ensures
        conditions_of(pieces.subrange(0, j)) == conditions_of(pieces.subrange(0, k)),
    decreases j - k,
{
    if j > k {
        lemma_conditions_none_extends(pieces, k, j - 1);
        assert(pieces.subrange(0, j).drop_last() =~= pieces.subrange(0, j - 1));
    }
}

proof fn lemma_operations_none_extends(parts: Seq<Seq<char>>, k: int, j: int)
    requires
        0 <= k <= j <= parts.len(),
        operations_of(parts.subrange(0, k)) is Err,
    ensures
        operations_of(parts.subrange(0, j)) == operations_of(parts.subrange(0, k)),
    decreases j - k,
{
    if j > k {
        lemma_operations_none_extends(parts, k, j - 1);
        assert(parts.subrange(0, j).drop_last() =~= parts.subrange(0, j - 1));
    }
}

proof fn lemma_operations_len(parts: Seq<Seq<char>>)
    ensures
        operations_of(parts) matches Ok(ops) ==> ops.len() == parts.len(),
    decreases parts.len(),
{
    if parts.len() > 0 {
        lemma_operations_len(parts.drop_last());
    }
}

impl Query {
    /// Parses a pipeline `op | op | ...`; fails on the first malformed stage.
    pub fn parse(input: &str) -> (r: Result<Query, ParseError>)
        ensures
            r matches Ok(q) ==> query_of(input@) == Ok::<Seq<OperationModel>, Seq<char>>(q@),
            r matches Err(e) ==> query_of(input@) == Err::<Seq<OperationModel>, Seq<char>>(
                e.context@,
            ),
    {
        proof {
            reveal_strlit("|");
        }
        let parts = split_str(input, "|");
        let ghost pv = views(parts@);
        let mut ops: Vec<Operation> = Vec::new();
        let mut k: usize = 0;
        assert(operation_views(ops@) =~= Seq::<OperationModel>::empty());
        assert(pv.subrange(0, 0) =~= Seq::<Seq<char>>::empty());
        while k < parts.len()
            invariant
                k <= parts.len(),
                pv == views(parts@),
                pv == split(input@, "|"@),
                operations_of(pv.subrange(0, k as int)) == Ok::<Seq<OperationModel>, Seq<char>>(
                    operation_views(ops@),
                ),
            decreases parts.len() - k,
        {
            let ghost prefix = pv.subrange(0, k + 1);
            assert(prefix.drop_last() =~= pv.subrange(0, k as int));
            assert(prefix.last() == parts[k as int]@);
            proof {
                lemma_operations_len(pv.subrange(0, k as int));
            }
            let op = match Self::parse_operation(parts[k].as_str()) {
                Ok(op) => op,
                Err(e) => {
                    proof {
                        lemma_operations_none_extends(pv, k + 1, pv.len() as int);
                        assert(pv.subrange(0, pv.len() as int) =~= pv);
                    }
                    return Err(e);
                },
            };
            if ops.len() >= MAX_OPERATIONS {
                proof {
                    lemma_operations_none_extends(pv, k + 1, pv.len() as int);
                    assert(pv.subrange(0, pv.len() as int) =~= pv);
                }
                return Err(ParseError::new("Exceeded query operator limit"));
            }
            let ghost old_ops = ops@;
            ops.push(op);
            assert(operation_views(ops@) =~= operation_views(old_ops).push(ops@.last()@));
            k = k + 1;
        }
        assert(pv.subrange(0, pv.len() as int) =~= pv);
        proof {
            lemma_split_from_nonempty(input@, "|"@, 0, 0);
            lemma_operations_len(pv);
        }
        let ghost model = operation_views(ops@);
        let ghost n = ops.len() as int;
        let last = match ops.pop() {
            Some(op) => op,
            None => {
                return Err(ParseError::new(""));
            },
        };
        let mut node = OperationNode { operation: last, child: None };
        assert(chain(node) =~= model.subrange(n - 1, n));
        while ops.len() > 0
            invariant
                ops.len() < n,
                n == model.len(),
                operation_views(ops@) == model.subrange(0, ops.len() as int),
                chain(node) == model.subrange(ops.len() as int, n),
            decreases ops.len(),
        {
            let ghost old_ops = ops@;
            let op = match ops.pop() {
                Some(op) => op,
                None => {
                    return Err(ParseError::new(""));
                },
            };
            assert(old_ops[ops.len() as int] == op);
            assert(operation_views(old_ops)[ops.len() as int] == op@);
            assert(operation_views(ops@) =~= model.subrange(0, ops.len() as int));
            node = OperationNode { operation: op, child: Some(Box::new(node)) };
            assert(chain(node) =~= model.subrange(ops.len() as int, n));
        }
        assert(model.subrange(0, n) =~= model);
        Ok(Query { root: node })
    }

    /// Parses one stage of a pipeline.
    pub fn parse_operation(part: &str) -> (r: Result<Operation, ParseError>)
        ensures
            r matches Ok(op) ==> operation_of(part@) == Ok::<OperationModel, Seq<char>>(op@),
            r matches Err(e) ==> operation_of(part@) == Err::<OperationModel, Seq<char>>(e.context@),
    {
        let p = trim_str(part);
        if let Some(rest) = strip_prefix_str(p, "filter") {
            match Self::parse_conditions(trim_str(rest)) {
                Ok(conditions) => Ok(Operation::Filter(conditions)),
                Err(e) => Err(e),
            }
        } else if let Some(rest) = strip_prefix_str(p, "group") {
            match Self::parse_aggregation(trim_str(rest)) {
                Ok(aggregation) => Ok(Operation::Group(aggregation)),
                Err(e) => Err(e),
            }
        } else {
            Err(ParseError::new("Unsupported operation"))
        }
    }

    /// Parses `column = value AND column = value ...`.
    pub fn parse_conditions(input: &str) -> (r: Result<Vec<Condition>, ParseError>)
        ensures
            r matches Ok(cs) ==> conditions_of(split(input@, "AND"@)) == Ok::<
                Seq<(Seq<char>, FilterModel)>,
                Seq<char>,
            >(condition_views(cs@)),
            r matches Err(e) ==> conditions_of(split(input@, "AND"@)) == Err::<
                Seq<(Seq<char>, FilterModel)>,
                Seq<char>,
            >(e.context@),
    {
        proof {
            reveal_strlit("AND");
            reveal_strlit("=");
        }
        let pieces = split_str(input, "AND");
        let ghost pv = views(pieces@);
        let mut conditions: Vec<Condition> = Vec::new();
        let mut k: usize = 0;
        assert(condition_views(conditions@) =~= Seq::<(Seq<char>, FilterModel)>::empty());
        assert(pv.subrange(0, 0) =~= Seq::<Seq<char>>::empty());
        while k < pieces.len()
            invariant
                k <= pieces.len(),
                pv == views(pieces@),
                pv == split(input@, "AND"@),
                conditions_of(pv.subrange(0, k as int)) == Ok::<
                    Seq<(Seq<char>, FilterModel)>,
                    Seq<char>,
                >(condition_views(conditions@)),
            decreases pieces.len() - k,
        {
            let ghost prefix = pv.subrange(0, k + 1);
            assert(prefix.drop_last() =~= pv.subrange(0, k as int));
            assert(prefix.last() == pieces[k as int]@);
            let part = trim_str(pieces[k].as_str());
            if part.unicode_len() > 0 {
                proof {
                    reveal_strlit("=");
                }
                let sides = split_str(part, "=");
                if sides.len() != 2 {
                    proof {
                        lemma_conditions_none_extends(pv, k + 1, pv.len() as int);
                        assert(pv.subrange(0, pv.len() as int) =~= pv);
                    }
                    return Err(ParseError::new("Each condition must contain exactly one '=' character"));
                }
                let column = trim_str(sides[0].as_str()).to_owned();
                let filter = match Self::parse_filter_value(trim_str(sides[1].as_str())) {
                    Ok(f) => f,
                    Err(e) => {
                        proof {
                            lemma_conditions_none_extends(pv, k + 1, pv.len() as int);
                            assert(pv.subrange(0, pv.len() as int) =~= pv);
                        }
                        return Err(e);
                    },
                };
                let ghost old_cs = conditions@;
                conditions.push(Condition { column, filter });
                assert(condition_views(conditions@) =~= condition_views(old_cs).push(
                    conditions@.last()@,
                ));
            }
            k = k + 1;
        }
        assert(pv.subrange(0, pv.len() as int) =~= pv);
        Ok(conditions)
    }

    /// Parses `count() BY timebucket(<size>)`.
    pub fn parse_aggregation(input: &str) -> (r: Result<Aggregation, ParseError>)
        ensures
            r matches Ok(a) ==> aggregation_of(input@) == Ok::<Aggregation, Seq<char>>(a),
            r matches Err(e) ==> aggregation_of(input@) == Err::<Aggregation, Seq<char>>(e.context@),
    {
        proof {
            reveal_strlit("BY");
            reveal_strlit("count()");
            reveal_strlit("timebucket(");
            reveal_strlit(")");
        }
        let parts = split_str(input, "BY");
        let ghost pv = views(parts@);
        let mut k: usize = 0;
        assert(pv.subrange(0, pv.len() as int) =~= pv);
        while k < parts.len() && trim_str(parts[k].as_str()).unicode_len() == 0
            invariant
                k <= parts.len(),
                pv == views(parts@),
                first_nonblank(pv) == first_nonblank(pv.subrange(k as int, pv.len() as int)),
            decreases parts.len() - k,
        {
            let ghost rest = pv.subrange(k as int, pv.len() as int);
            assert(rest.drop_first() =~= pv.subrange(k + 1, pv.len() as int));
            k = k + 1;
        }
        if k == parts.len() {
            assert("Unsupported group function: "@ + Seq::<char>::empty()
                =~= "Unsupported group function: "@);
            return Err(ParseError::new("Unsupported group function: "));
        }
        let head = trim_str(parts[k].as_str());
        assert(pv.subrange(k as int, pv.len() as int)[0] == pv[k as int]);
        if find_str(head, "count()", 0).is_none() {
            let mut context = String::from_str("Unsupported group function: ");
            context.append(head);
            return Err(ParseError { context });
        }
        let start = match find_str(input, "timebucket(", 0) {
            Some(st) => st,
            None => {
                return Err(ParseError::new("Unsupported aggregation function"));
            },
        };
        let open = "timebucket(".unicode_len();
        proof {
            let pat = "timebucket("@;
            lemma_find_from_skip(input@, pat, 0, 0);
            assert(input@.subrange(start as int, start + open) == pat);
            assert forall|j: int| start <= j < start + open implies !matches_at(
                input@,
                ")"@,
                j,
            ) by {
                assert(input@[j] == input@.subrange(start as int, start + open)[j - start]);
                if matches_at(input@, ")"@, j) {
                    assert(input@[j] == input@.subrange(j, j + 1)[0]);
                }
            };
            lemma_find_from_skip(input@, ")"@, start as int, start + open);
        }
        let end = match find_str(input, ")", start) {
            Some(e) => e,
            None => {
                return Err(ParseError::new("Missing closing parenthesis for timebucket"));
            },
        };
        let args = trim_str(input.substring_char(start + open, end));
        match parse_i32(args) {
            Some(size) => Ok(
                Aggregation {
                    function: AggregationFunction::Count,
                    group_by: Some(GroupFunctions::TimeBucket(size)),
                },
            ),
            None => Err(ParseError::new("Invalid bucket size")),
        }
    }

    /// Parses a filter value: `'text'` or a decimal `i32`.
    pub fn parse_filter_value(value: &str) -> (r: Result<FilterValue, ParseError>)
        ensures
            r matches Ok(f) ==> filter_value_of(value@) == Ok::<FilterModel, Seq<char>>(f@),
            r matches Err(e) ==> filter_value_of(value@) == Err::<FilterModel, Seq<char>>(e.context@),
    {
        let n = value.unicode_len();
        if n > 1 && value.get_char(0) == '\'' && value.get_char(n - 1) == '\'' {
            Ok(FilterValue::Str(value.substring_char(1, n - 1).to_owned()))
        } else {
            match parse_i32(value) {
                Some(v) => Ok(FilterValue::Int(v)),
                None => Err(ParseError::new("String values must be enclosed in single quotes")),
            }
        }
    }
}

} // verus!
