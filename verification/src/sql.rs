//! The plan translator: a constrained SQL `SELECT` subset, parsed by the
//! `sqlparser` crate behind a small trusted boundary, is classified into
//! plain shapes, and a verified builder turns those shapes into the fixed
//! linear operator cascade Scan → [Filter] → [Aggregate] → [Project].

use vstd::prelude::*;
use vstd::string::StringExecFns;

use sqlparser::ast::{BinaryOperator, Expr, FunctionArg, FunctionArgExpr, FunctionArguments, GroupByExpr, SelectItem, Statement, Value, ValueWithSpan};
use sqlparser::dialect::GenericDialect;
use sqlparser::parser::Parser;

use crate::plan::{aggs_model, AggregateFunction, AggregateNode, FilterNode, PlanNode, Predicate, ProjectNode, ScanNode};
use crate::table::Table;

verus! {

/// A recoverable translation failure: the query text cannot be turned into
/// an operator tree.
#[derive(Debug, PartialEq, Eq)]
pub enum TranslationError {
    /// The query text does not parse.
    Parse,
    /// The input holds more than one statement.
    MultipleStatements,
    /// The single statement is not a `SELECT` query.
    NotSelect,
    /// The `WHERE` clause is not of the shape `<identifier> = '<literal>'`.
    UnsupportedPredicate,
    /// The `GROUP BY` clause holds something besides plain identifiers.
    UnsupportedGroupBy,
    /// A select-list function call is not a recognized aggregate name.
    UnsupportedAggregate,
    /// `avg` is recognized by the grammar but has no execution semantics.
    AvgUnsupported,
}

/// The shape of one select-list item: a plain column identifier, a function
/// call on a single column identifier, a function call whose argument shape
/// cannot be read (a wildcard, an expression), or anything else.
pub enum SelectItemShape {
    Name(String),
    Call(String, String),
    MalformedCall,
    Other,
}

/// The shape of one `GROUP BY` expression: a plain identifier or anything
/// else.
pub enum GroupShape {
    Name(String),
    Other,
}

/// The shape of a `WHERE` clause: `column = 'literal'` or anything else.
pub enum WhereShape {
    Equals(String, String),
    Other,
}

/// What the query text is, before any shapes are read: unparseable text,
/// more than one statement, a single statement that is not a plain
/// `SELECT`, or a single plain `SELECT`.
pub enum ParseOutcome {
    Unparsable,
    MultipleStatements,
    NotSelect,
    Selected,
}

/// The classification of one query text: its parse outcome and — when the
/// text is a single plain `SELECT` — the shapes of its select-list items,
/// its `WHERE` clause and its `GROUP BY` clause.
#[verifier::ext_equal]
pub ghost struct QueryClass {
    pub outcome: ParseOutcome,
    pub items: Seq<SelectItemShape>,
    pub filter: Option<WhereShape>,
    pub groups: Option<Seq<GroupShape>>,
}

/// The classification that a query text denotes. Parsing with `sqlparser`'s
/// generic dialect is a function of the text alone, so the classification
/// can be named; the trusted readers below each tie one component of their
/// result to it.
pub uninterp spec fn classified(q: Seq<char>) -> QueryClass;

/// Relies on `sqlparser::parser::Parser::parse_sql` with the generic
/// dialect: whether the text parses into exactly one statement that is a
/// plain `SELECT` query.
#[verifier::external_body]
fn query_outcome(query: &str) -> (r: ParseOutcome)
    ensures
        r == classified(query@).outcome,
{
    let sts = match Parser::parse_sql(&GenericDialect {}, query) {
        Ok(sts) => sts,
        Err(_) => return ParseOutcome::Unparsable,
    };
    match sts.as_slice() {
        [] => ParseOutcome::Unparsable,
        [Statement::Query(q)] if q.body.as_select().is_some() => ParseOutcome::Selected,
        [_] => ParseOutcome::NotSelect,
        _ => ParseOutcome::MultipleStatements,
    }
}

#[verifier::external_type_specification]
#[verifier::external_body]
pub struct ExExpr(Expr);

#[verifier::external_type_specification]
#[verifier::external_body]
pub struct ExSelectItem(SelectItem);

/// Relies on the `Expr` tree: an equality of an identifier with a
/// single-quoted string becomes `WhereShape::Equals`, anything else
/// `WhereShape::Other`.
#[verifier::external_body]
fn where_shape(e: &Expr) -> (r: WhereShape) {
    match e {
        Expr::BinaryOp { left, op: BinaryOperator::Eq, right } => match (&**left, &**right) {
            (
                Expr::Identifier(id),
                Expr::Value(ValueWithSpan { value: Value::SingleQuotedString(s), .. }),
            ) => WhereShape::Equals(id.value.clone(), s.clone()),
            _ => WhereShape::Other,
        },
        _ => WhereShape::Other,
    }
}

/// Relies on `Expr::Identifier`: a plain identifier becomes its name,
/// anything else `GroupShape::Other`.
#[verifier::external_body]
fn group_shape(e: &Expr) -> (r: GroupShape) {
    match e {
        Expr::Identifier(id) => GroupShape::Name(id.value.clone()),
        _ => GroupShape::Other,
    }
}

/// Relies on `SelectItem`, `Function` and the `Display` of a function's
/// name: an unaliased identifier becomes its name; an unaliased call on a
/// single identifier becomes its (printed name, argument) pair; a call on
/// anything else (a wildcard, an expression) is `MalformedCall`.
#[verifier::external_body]
fn item_shape(item: &SelectItem) -> (r: SelectItemShape) {
    match item {
        SelectItem::UnnamedExpr(Expr::Identifier(id)) => SelectItemShape::Name(id.value.clone()),
        SelectItem::UnnamedExpr(Expr::Function(f)) => match &f.args {
            FunctionArguments::List(l) => match l.args.first() {
                Some(FunctionArg::Unnamed(FunctionArgExpr::Expr(Expr::Identifier(a)))) =>
                    SelectItemShape::Call(f.name.to_string(), a.value.clone()),
                _ => SelectItemShape::MalformedCall,
            },
            _ => SelectItemShape::MalformedCall,
        },
        _ => SelectItemShape::Other,
    }
}

/// Relies on `Parser::parse_sql` and `Select::selection`: for a single
/// plain `SELECT`, the shape of its `WHERE` clause (`None` when absent).
#[verifier::external_body]
fn query_filter_shape(query: &str) -> (r: Option<WhereShape>)
    ensures
        classified(query@).outcome is Selected ==> r == classified(query@).filter,
{
    let sts = Parser::parse_sql(&GenericDialect {}, query).unwrap_or_default();
    match sts.first() {
        Some(Statement::Query(q)) => match q.body.as_select() {
            Some(sel) => sel.selection.as_ref().map(where_shape),
            None => None,
        },
        _ => None,
    }
}

/// Relies on `Parser::parse_sql` and `Select::group_by`: for a single plain
/// `SELECT`, the shapes of its `GROUP BY` expressions (empty when the
/// clause is absent), or `None` for the `GROUP BY ALL` form.
#[verifier::external_body]
fn query_group_shapes(query: &str) -> (r: Option<Vec<GroupShape>>)
    ensures
        classified(query@).outcome is Selected ==> groups_model(r) == classified(query@).groups,
{
    let sts = Parser::parse_sql(&GenericDialect {}, query).unwrap_or_default();
    match sts.first() {
        Some(Statement::Query(q)) => match q.body.as_select() {
            Some(sel) => match &sel.group_by {
                GroupByExpr::All(_) => None,
                GroupByExpr::Expressions(exprs, _) => Some(exprs.iter().map(group_shape).collect()),
            },
            None => None,
        },
        _ => None,
    }
}

/// Relies on `Parser::parse_sql` and `Select::projection`: for a single
/// plain `SELECT`, the shapes of its select-list items in order.
#[verifier::external_body]
fn query_item_shapes(query: &str) -> (r: Vec<SelectItemShape>)
    ensures
        classified(query@).outcome is Selected ==> r@ == classified(query@).items,
{
    let sts = Parser::parse_sql(&GenericDialect {}, query).unwrap_or_default();
    match sts.first() {
        Some(Statement::Query(q)) => match q.body.as_select() {
            Some(sel) => sel.projection.iter().map(item_shape).collect(),
            None => Vec::new(),
        },
        _ => Vec::new(),
    }
}

/// The ASCII lower-case equivalent of one character.
pub open spec fn ascii_lower_char(c: char) -> char {
    if 65 <= c as int && c as int <= 90 {
        ((c as int + 32) as u8) as char
    } else {
        c
    }
}

/// A string mapped to ASCII lower case, character by character.
pub open spec fn lower_str(s: Seq<char>) -> Seq<char> {
    s.map_values(|c: char| ascii_lower_char(c))
}

/// Relies on `str::to_ascii_lowercase`: every ASCII upper-case letter is
/// mapped to its lower-case equivalent, every other character is unchanged.
#[verifier::external_body]
fn ascii_lowercase(s: &str) -> (r: String)
    ensures
        r@ == lower_str(s@),
{
    s.to_ascii_lowercase()
}

/// Which aggregate a function name denotes, compared in ASCII lower case:
/// `sum` and `count` execute, `avg` is recognized but unsupported, anything
/// else is unrecognized.
pub open spec fn agg_kind_spec(name: Seq<char>) -> Result<AggregateFunction, TranslationError> {
    let l = lower_str(name);
    if l == seq!['s', 'u', 'm'] {
        Ok(AggregateFunction::Sum)
    } else if l == seq!['c', 'o', 'u', 'n', 't'] {
        Ok(AggregateFunction::Count)
    } else if l == seq!['a', 'v', 'g'] {
        Err(TranslationError::AvgUnsupported)
    } else {
        Err(TranslationError::UnsupportedAggregate)
    }
}

/// The aggregate denoted by one function name.
fn agg_kind_for(name: &String) -> (r: Result<AggregateFunction, TranslationError>)
    ensures
        r == agg_kind_spec(name@),
{
    let lowered = ascii_lowercase(name.as_str());
    proof {
        reveal_strlit("sum");
        reveal_strlit("count");
        reveal_strlit("avg");
        assert("sum"@ =~= seq!['s', 'u', 'm']);
        assert("count"@ =~= seq!['c', 'o', 'u', 'n', 't']);
        assert("avg"@ =~= seq!['a', 'v', 'g']);
    }
    if lowered == String::from_str("sum") {
        Ok(AggregateFunction::Sum)
    } else if lowered == String::from_str("count") {
        Ok(AggregateFunction::Count)
    } else if lowered == String::from_str("avg") {
        Err(TranslationError::AvgUnsupported)
    } else {
        Err(TranslationError::UnsupportedAggregate)
    }
}

/// The plain column names of the select list, in order.
pub open spec fn proj_names(items: Seq<SelectItemShape>) -> Seq<Seq<char>>
    decreases items.len(),
{
    if items.len() == 0 {
        Seq::empty()
    } else {
        let rest = proj_names(items.drop_last());
        match items.last() {
            SelectItemShape::Name(s) => rest.push(s@),
            _ => rest,
        }
    }
}

/// The group-by column names, or the error of the first non-identifier
/// expression.
pub open spec fn group_names(gs: Seq<GroupShape>) -> Result<Seq<Seq<char>>, TranslationError>
    decreases gs.len(),
{
    if gs.len() == 0 {
        Ok(Seq::empty())
    } else {
        match group_names(gs.drop_last()) {
            Err(e) => Err(e),
            Ok(rest) => match gs.last() {
                GroupShape::Name(s) => Ok(rest.push(s@)),
                GroupShape::Other => Err(TranslationError::UnsupportedGroupBy),
            },
        }
    }
}

/// The (target, function) pairs of the select list's function calls in
/// order, or the error of the first unrecognized or unsupported call.
pub open spec fn agg_pairs(items: Seq<SelectItemShape>) -> Result<
    Seq<(Seq<char>, AggregateFunction)>,
    TranslationError,
>
    decreases items.len(),
{
    if items.len() == 0 {
        Ok(Seq::empty())
    } else {
        match agg_pairs(items.drop_last()) {
            Err(e) => Err(e),
            Ok(rest) => match items.last() {
                SelectItemShape::Call(f, arg) => match agg_kind_spec(f@) {
                    Ok(k) => Ok(rest.push((arg@, k))),
                    Err(e) => Err(e),
                },
                SelectItemShape::MalformedCall => Err(TranslationError::UnsupportedAggregate),
                _ => Ok(rest),
            },
        }
    }
}

/// A failing group-name extraction always reports the unsupported group-by
/// shape.
proof fn lemma_group_names_err_form(gs: Seq<GroupShape>)
    ensures
        group_names(gs) is Err ==> group_names(gs) == Err::<Seq<Seq<char>>, TranslationError>(
            TranslationError::UnsupportedGroupBy,
        ),
    decreases gs.len(),
{
    if gs.len() > 0 {
        lemma_group_names_err_form(gs.drop_last());
    }
}

/// If a prefix extracts cleanly and the next item errors, the whole list
/// reports that item's error.
proof fn lemma_agg_pairs_first_err(items: Seq<SelectItemShape>, j: int, e: TranslationError)
    requires
        0 <= j < items.len(),
        agg_pairs(items.take(j)) is Ok,
        match items[j] {
            SelectItemShape::Call(f, _) => agg_kind_spec(f@) == Err::<
                AggregateFunction,
                TranslationError,
            >(e),
            SelectItemShape::MalformedCall => e == TranslationError::UnsupportedAggregate,
            _ => false,
        },
    ensures
        agg_pairs(items) == Err::<Seq<(Seq<char>, AggregateFunction)>, TranslationError>(e),
    decreases items.len(),
{
    if items.len() == j + 1 {
        assert(items.take(j) =~= items.drop_last());
    } else {
        assert(items.drop_last().take(j) =~= items.take(j));
        assert(items.drop_last()[j] == items[j]);
        lemma_agg_pairs_first_err(items.drop_last(), j, e);
    }
}

/// The same for a non-identifier group-by expression.
proof fn lemma_group_names_first_err(gs: Seq<GroupShape>, j: int)
    requires
        0 <= j < gs.len(),
        gs[j] is Other,
    ensures
        group_names(gs) == Err::<Seq<Seq<char>>, TranslationError>(
            TranslationError::UnsupportedGroupBy,
        ),
    decreases gs.len(),
{
    if j == gs.len() - 1 {
        lemma_group_names_err_form(gs);
    } else {
        assert(gs.drop_last()[j] == gs[j]);
        lemma_group_names_first_err(gs.drop_last(), j);
    }
}

/// The translation outcome over the classified shapes: the error the
/// cascade builder reports, or `None` when a plan is owed. The `WHERE`
/// shape is judged first, then the group-by clause, then every select-list
/// function call (so an `avg` call or a call on a wildcard or expression
/// argument errors even without `GROUP BY`).
pub open spec fn translate_err(
    items: Seq<SelectItemShape>,
    filter: Option<WhereShape>,
    groups: Option<Seq<GroupShape>>,
) -> Option<TranslationError> {
    if filter matches Some(WhereShape::Other) {
        Some(TranslationError::UnsupportedPredicate)
    } else {
        match groups {
            None => Some(TranslationError::UnsupportedGroupBy),
            Some(gs) => match group_names(gs) {
                Err(e) => Some(e),
                Ok(_) => match agg_pairs(items) {
                    Err(e) => Some(e),
                    Ok(_) => None,
                },
            },
        }
    }
}

/// The model of an optional group-shape list.
pub open spec fn groups_model(groups: Option<Vec<GroupShape>>) -> Option<Seq<GroupShape>> {
    match groups {
        None => None,
        Some(gs) => Some(gs@),
    }
}

/// The innermost stage of every plan: a scan of the bound table.
pub open spec fn is_scan<'a>(p: PlanNode<'a>, t: &'a Table) -> bool {
    p matches PlanNode::Scan(s) && s.table == t
}

/// The filter stage: a `WHERE column = 'literal'` clause wraps the scan in
/// an equality filter; no clause leaves the scan bare.
pub open spec fn filter_stage<'a>(p: PlanNode<'a>, t: &'a Table, filter: Option<WhereShape>) -> bool {
    match filter {
        None => is_scan(p, t),
        Some(WhereShape::Equals(col, lit)) => p matches PlanNode::Filter(f) && f.predicate.column@
            == col@ && f.predicate.literal@ == lit@ && is_scan(*f.input, t),
        Some(WhereShape::Other) => false,
    }
}

/// The aggregate stage: a non-empty group-by list wraps the current tree in
/// an aggregate node over the extracted pairs.
pub open spec fn agg_stage<'a>(
    p: PlanNode<'a>,
    t: &'a Table,
    filter: Option<WhereShape>,
    gnames: Seq<Seq<char>>,
    pairs: Seq<(Seq<char>, AggregateFunction)>,
) -> bool {
    if gnames.len() == 0 {
        filter_stage(p, t, filter)
    } else {
        p matches PlanNode::Aggregate(a) && a.group_by.deep_view() == gnames && aggs_model(
            a.aggregates@,
        ) == pairs && filter_stage(*a.input, t, filter)
    }
}

/// The whole cascade: plain select-list identifiers, if any, wrap the tree
/// in a projection restricted to exactly those names in order.
pub open spec fn planned<'a>(
    p: PlanNode<'a>,
    t: &'a Table,
    items: Seq<SelectItemShape>,
    filter: Option<WhereShape>,
    gnames: Seq<Seq<char>>,
    pairs: Seq<(Seq<char>, AggregateFunction)>,
) -> bool {
    let proj = proj_names(items);
    if proj.len() == 0 {
        agg_stage(p, t, filter, gnames, pairs)
    } else {
        p matches PlanNode::Project(pr) && pr.columns.deep_view() == proj && agg_stage(
            *pr.input,
            t,
            filter,
            gnames,
            pairs,
        )
    }
}

/// Every plan the translator hands out is rooted in a scan of the bound
/// table.
pub open spec fn scan_rooted<'a>(p: PlanNode<'a>, t: &'a Table) -> bool
    decreases p,
{
    match p {
        PlanNode::Scan(s) => s.table == t,
        PlanNode::Project(pr) => scan_rooted(*pr.input, t),
        PlanNode::Filter(f) => scan_rooted(*f.input, t),
        PlanNode::Aggregate(a) => scan_rooted(*a.input, t),
    }
}

/// Build the fixed linear cascade from the classified shapes: Scan over the
/// bound table, a Filter for a supported `WHERE`, an Aggregate for a
/// non-empty `GROUP BY`, a Project for the plain select-list identifiers —
/// or the first unsupported shape's typed error.
pub fn build_plan<'a>(
    table: &'a Table,
    items: &Vec<SelectItemShape>,
    filter: Option<WhereShape>,
    groups: Option<Vec<GroupShape>>,
) -> (r: Result<PlanNode<'a>, TranslationError>)
    ensures
        match r {
            Ok(p) => {
                &&& translate_err(items@, filter, groups_model(groups)) is None
                &&& scan_rooted(p, table)
                &&& match groups_model(groups) {
                    Some(gs) => match (group_names(gs), agg_pairs(items@)) {
                        (Ok(gnames), Ok(pairs)) => planned(p, table, items@, filter, gnames, pairs),
                        _ => false,
                    },
                    None => false,
                }
            },
            Err(e) => translate_err(items@, filter, groups_model(groups)) == Some(e),
        },
{
    let ghost ggroups = groups_model(groups);
    let mut plan = PlanNode::Scan(ScanNode { table });
    match &filter {
        None => {},
        Some(WhereShape::Equals(col, lit)) => {
            plan = PlanNode::Filter(
                FilterNode {
                    input: Box::new(plan),
                    predicate: Predicate { column: col.clone(), literal: lit.clone() },
                },
            );
        },
        Some(WhereShape::Other) => {
            return Err(TranslationError::UnsupportedPredicate);
        },
    }
    proof {
        assert(!(filter matches Some(WhereShape::Other)));
    }
    let ghost base = plan;
    assert(filter_stage(base, table, filter));
    proof {
        match filter {
            Some(WhereShape::Equals(_, _)) => {
                let f = base->Filter_0;
                assert(is_scan(*f.input, table));
                assert(scan_rooted(*f.input, table));
            },
            _ => {},
        }
        assert(scan_rooted(base, table));
    }
    let gs = match groups {
        Some(gs) => gs,
        None => {
            return Err(TranslationError::UnsupportedGroupBy);
        },
    };
    proof {
        assert(ggroups == Some(gs@));
    }
    let mut gnames: Vec<String> = Vec::new();
    let mut j: usize = 0;
    proof {
        assert(gs@.take(0int) =~= Seq::<GroupShape>::empty());
        assert(gnames.deep_view() =~= Seq::<Seq<char>>::empty());
    }
    while j < gs.len()
        invariant
            0 <= j <= gs@.len(),
            ggroups == Some(gs@),
            groups_model(groups) == ggroups,
            !(filter matches Some(WhereShape::Other)),
            group_names(gs@.take(j as int)) == Ok::<_, TranslationError>(gnames.deep_view()),
        decreases gs.len() - j,
    {
        proof {
            assert(gs@.take(j + 1).drop_last() =~= gs@.take(j as int));
            assert(gs@.take(j + 1).last() == gs@[j as int]);
        }
        match &gs[j] {
            GroupShape::Name(s) => {
                let ghost g0 = gnames.deep_view();
                gnames.push(s.clone());
                proof {
                    assert(gnames.deep_view() =~= g0.push(gs@[j as int]->Name_0@));
                }
            },
            GroupShape::Other => {
                proof {
                    lemma_group_names_first_err(gs@, j as int);
                }
                return Err(TranslationError::UnsupportedGroupBy);
            },
        }
        j += 1;
    }
    proof {
        assert(gs@.take(gs@.len() as int) =~= gs@);
    }
    let mut apairs: Vec<(String, AggregateFunction)> = Vec::new();
    let mut k: usize = 0;
    proof {
        assert(items@.take(0int) =~= Seq::<SelectItemShape>::empty());
        assert(aggs_model(apairs@) =~= Seq::<(Seq<char>, AggregateFunction)>::empty());
    }
    while k < items.len()
        invariant
            0 <= k <= items@.len(),
            ggroups == Some(gs@),
            groups_model(groups) == ggroups,
            !(filter matches Some(WhereShape::Other)),
            group_names(gs@) == Ok::<_, TranslationError>(gnames.deep_view()),
            agg_pairs(items@.take(k as int)) == Ok::<_, TranslationError>(aggs_model(apairs@)),
        decreases items.len() - k,
    {
        proof {
            assert(items@.take(k + 1).drop_last() =~= items@.take(k as int));
            assert(items@.take(k + 1).last() == items@[k as int]);
        }
        match &items[k] {
            SelectItemShape::Call(f, arg) => {
                match agg_kind_for(f) {
                    Ok(kind) => {
                        let ghost a0 = aggs_model(apairs@);
                        apairs.push((arg.clone(), kind));
                        proof {
                            assert(aggs_model(apairs@) =~= a0.push(
                                (items@[k as int]->Call_1@, kind),
                            ));
                        }
                    },
                    Err(e) => {
                        proof {
                            lemma_agg_pairs_first_err(items@, k as int, e);
                        }
                        return Err(e);
                    },
                }
            },
            SelectItemShape::MalformedCall => {
                proof {
                    lemma_agg_pairs_first_err(
                        items@,
                        k as int,
                        TranslationError::UnsupportedAggregate,
                    );
                }
                return Err(TranslationError::UnsupportedAggregate);
            },
            _ => {},
        }
        k += 1;
    }
    proof {
        assert(items@.take(items@.len() as int) =~= items@);
    }
    let ghost gn = gnames.deep_view();
    let ghost ap = aggs_model(apairs@);
    if gnames.len() > 0 {
        plan = PlanNode::Aggregate(
            AggregateNode { input: Box::new(plan), group_by: gnames, aggregates: apairs },
        );
    }
    proof {
        assert(agg_stage(plan, table, filter, gn, ap));
        assert(scan_rooted(plan, table));
    }
    let mut pnames: Vec<String> = Vec::new();
    let mut m: usize = 0;
    proof {
        assert(items@.take(0int) =~= Seq::<SelectItemShape>::empty());
        assert(pnames.deep_view() =~= Seq::<Seq<char>>::empty());
    }
    while m < items.len()
        invariant
            0 <= m <= items@.len(),
            proj_names(items@.take(m as int)) == pnames.deep_view(),
        decreases items.len() - m,
    {
        proof {
            assert(items@.take(m + 1).drop_last() =~= items@.take(m as int));
            assert(items@.take(m + 1).last() == items@[m as int]);
        }
        match &items[m] {
            SelectItemShape::Name(s) => {
                let ghost p0 = pnames.deep_view();
                pnames.push(s.clone());
                proof {
                    assert(pnames.deep_view() =~= p0.push(items@[m as int]->Name_0@));
                }
            },
            _ => {},
        }
        m += 1;
    }
    proof {
        assert(items@.take(items@.len() as int) =~= items@);
    }
    let ghost pn = pnames.deep_view();
    if pnames.len() > 0 {
        plan = PlanNode::Project(ProjectNode { input: Box::new(plan), columns: pnames });
    }
    proof {
        assert(planned(plan, table, items@, filter, gn, ap));
        assert(scan_rooted(plan, table));
    }
    Ok(plan)
}

/// Translate one `SELECT` statement, bound to `table`, into an operator
/// tree. Unparseable text, multi-statement input and a non-`SELECT`
/// statement each yield their typed error, exactly; for a single plain
/// `SELECT`, the result is the outcome of [`build_plan`] on the text's
/// classified shapes: the first unsupported shape's typed error, if and
/// only if there is one, else the fixed cascade over those shapes, rooted
/// in a scan of the bound table.
pub fn parse_sql_to_plan<'a>(query: &str, table: &'a Table) -> (r: Result<
    PlanNode<'a>,
    TranslationError,
>)
    ensures
        ({
            let cq = classified(query@);
            match cq.outcome {
                ParseOutcome::Unparsable => r == Err::<PlanNode<'a>, TranslationError>(
                    TranslationError::Parse,
                ),
                ParseOutcome::MultipleStatements => r == Err::<PlanNode<'a>, TranslationError>(
                    TranslationError::MultipleStatements,
                ),
                ParseOutcome::NotSelect => r == Err::<PlanNode<'a>, TranslationError>(
                    TranslationError::NotSelect,
                ),
                ParseOutcome::Selected => match r {
                    Ok(p) => {
                        &&& translate_err(cq.items, cq.filter, cq.groups) is None
                        &&& scan_rooted(p, table)
                        &&& match cq.groups {
                            Some(gs) => match (group_names(gs), agg_pairs(cq.items)) {
                                (Ok(gnames), Ok(pairs)) => planned(
                                    p,
                                    table,
                                    cq.items,
                                    cq.filter,
                                    gnames,
                                    pairs,
                                ),
                                _ => false,
                            },
                            None => false,
                        }
                    },
                    Err(e) => translate_err(cq.items, cq.filter, cq.groups) == Some(e),
                },
            }
        }),
{
    match query_outcome(query) {
        ParseOutcome::Unparsable => {
            return Err(TranslationError::Parse);
        },
        ParseOutcome::MultipleStatements => {
            return Err(TranslationError::MultipleStatements);
        },
        ParseOutcome::NotSelect => {
            return Err(TranslationError::NotSelect);
        },
        ParseOutcome::Selected => {},
    }
    let filter = query_filter_shape(query);
    let groups = query_group_shapes(query);
    let items = query_item_shapes(query);
    build_plan(table, &items, filter, groups)
}

} // verus!
