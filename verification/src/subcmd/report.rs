//! The health report: filtering and sorting the projects of a snapshot, and
//! drawing the terminal table.
use vstd::prelude::*;

use crate::color::{blue, green, red, white, wrap, yellow};
use crate::display::{day_shown, format_day, health_colored, health_paint, health_text, health_text_of};
use crate::ordering::{comes_before, key_values, stable_order, stable_order_of, KeyValue, SortKey};
use crate::snapshot::ProjectSnapshot;
use crate::tags::{tagged, TagsIndex};
use crate::text::{
    bool_string, bool_text, chars_of, decimal, display_name, last_segment, eq_ignore_ascii_case, eq_ignoring_ascii_case,
    find_char, first_index, i64_text, int_decimal, lex_le, lex_less, lex_lt, owned, push_char,
    push_repeat, repeat, slice_chars, str_eq, string_of, u64_text, utf8_len, utf8_len_capped,
};
use crate::time::{days_between, days_since};

verus! {

// ---------------------------------------------------------------------------
// Errors
// ---------------------------------------------------------------------------

/// Why a filter or sort request was refused.
#[derive(Debug)]
pub enum ReportError {
    /// A filter without `=`; holds the filter as given.
    InvalidFilterSyntax(String),
    /// A filter on a field that cannot be filtered on.
    InvalidFilterField(String),
    /// A filter with an unknown operator.
    InvalidFilterOperator(String),
    /// A sort on a field that cannot be sorted on.
    InvalidSortField(String),
}

impl ReportError {
    /// The error message.
    pub open spec fn spec_message(&self) -> Seq<char> {
        match self {
            ReportError::InvalidFilterSyntax(s) => "Invalid filter syntax: '"@ + s@
                + "'. Use format <field>[:<op>]=<value>"@,
            ReportError::InvalidFilterField(s) => "Invalid filter field: '"@ + s@
                + "'. Valid fields: name, type, health, loc, dirty, branch, last_commit, tag"@,
            ReportError::InvalidFilterOperator(s) => "Invalid filter operator: '"@ + s@
                + "'. Valid operators: eq, gte, lte, gt, lt"@,
            ReportError::InvalidSortField(s) => "Invalid sort field: '"@ + s@
                + "'. Valid fields: name, type, health, loc, lines_of_code, branch, last_commit"@,
        }
    }

    /// The error message.
    pub fn message(&self) -> (m: String)
        ensures
            m@ == self.spec_message(),
    {
        match self {
            ReportError::InvalidFilterSyntax(s) => {
                let m = String::from_str("Invalid filter syntax: '");
                let m = m.concat(s.as_str());
                m.concat("'. Use format <field>[:<op>]=<value>")
            },
            ReportError::InvalidFilterField(s) => {
                let m = String::from_str("Invalid filter field: '");
                let m = m.concat(s.as_str());
                m.concat("'. Valid fields: name, type, health, loc, dirty, branch, last_commit, tag")
            },
            ReportError::InvalidFilterOperator(s) => {
                let m = String::from_str("Invalid filter operator: '");
                let m = m.concat(s.as_str());
                m.concat("'. Valid operators: eq, gte, lte, gt, lt")
            },
            ReportError::InvalidSortField(s) => {
                let m = String::from_str("Invalid sort field: '");
                let m = m.concat(s.as_str());
                m.concat(
                    "'. Valid fields: name, type, health, loc, lines_of_code, branch, last_commit",
                )
            },
        }
    }
}

// ---------------------------------------------------------------------------
// Filters
// ---------------------------------------------------------------------------

/// The parts of a filter `<field>[:<op>]=<value>`: the text before the
/// first `=` is the key and the rest the value; a key with a `:` splits at
/// its first `:` into field and operator, and the operator is `eq` when
/// there is none. `None` when there is no `=`.
pub open spec fn filter_parts(input: Seq<char>) -> Option<(Seq<char>, Seq<char>, Seq<char>)> {
    match first_index(input, '=') {
        None => None,
        Some(e) => {
            let key = input.subrange(0, e);
            let value = input.subrange(e + 1, input.len() as int);
            match first_index(key, ':') {
                Some(c) => Some((key.subrange(0, c), key.subrange(c + 1, key.len() as int), value)),
                None => Some((key, "eq"@, value)),
            }
        },
    }
}

/// Splits a filter into field, operator and value. The error names
/// `original`.
pub fn parse_field_op_value(input: &str, original: &str) -> (r: Result<
    (String, String, String),
    ReportError,
>)
    ensures
        match filter_parts(input@) {
            Some((f, o, v)) => r matches Ok((a, b, c)) && a@ == f && b@ == o && c@ == v,
            None => r matches Err(ReportError::InvalidFilterSyntax(s)) && s@ == original@,
        },
{
    let chars = chars_of(input);
    match find_char(&chars, '=') {
        None => Err(ReportError::InvalidFilterSyntax(owned(original))),
        Some(e) => {
            let key = slice_chars(&chars, 0, e);
            let value = slice_chars(&chars, e + 1, chars.len());
            match find_char(&key, ':') {
                Some(c) => {
                    let field = slice_chars(&key, 0, c);
                    let op = slice_chars(&key, c + 1, key.len());
                    Ok((string_of(&field), string_of(&op), string_of(&value)))
                },
                None => Ok((string_of(&key), owned("eq"), string_of(&value))),
            }
        },
    }
}

/// A field that a filter can test.
#[derive(Debug, Clone, Copy, PartialEq, Eq, Structural)]
pub enum FilterField {
    Name,
    Type,
    Health,
    Loc,
    Dirty,
    Branch,
    LastCommit,
    Tag,
}

/// How a filter compares.
#[derive(Debug, Clone, Copy, PartialEq, Eq, Structural)]
pub enum FilterOp {
    Eq,
    Gte,
    Lte,
    Gt,
    Lt,
}

/// A checked filter.
#[derive(Debug)]
pub struct Filter {
    pub field: FilterField,
    pub op: FilterOp,
    pub value: String,
}

/// The field a filter names.
pub open spec fn filter_field_of(s: Seq<char>) -> Option<FilterField> {
    if s == "name"@ {
        Some(FilterField::Name)
    } else if s == "type"@ {
        Some(FilterField::Type)
    } else if s == "health"@ {
        Some(FilterField::Health)
    } else if s == "loc"@ {
        Some(FilterField::Loc)
    } else if s == "dirty"@ {
        Some(FilterField::Dirty)
    } else if s == "branch"@ {
        Some(FilterField::Branch)
    } else if s == "last_commit"@ {
        Some(FilterField::LastCommit)
    } else if s == "tag"@ {
        Some(FilterField::Tag)
    } else {
        None
    }
}

/// The operator a filter names.
pub open spec fn filter_op_of(s: Seq<char>) -> Option<FilterOp> {
    if s == "eq"@ {
        Some(FilterOp::Eq)
    } else if s == "gte"@ {
        Some(FilterOp::Gte)
    } else if s == "lte"@ {
        Some(FilterOp::Lte)
    } else if s == "gt"@ {
        Some(FilterOp::Gt)
    } else if s == "lt"@ {
        Some(FilterOp::Lt)
    } else {
        None
    }
}

fn field_named(s: &str) -> (r: Option<FilterField>)
    ensures
        r == filter_field_of(s@),
{
    if str_eq(s, "name") {
        Some(FilterField::Name)
    } else if str_eq(s, "type") {
        Some(FilterField::Type)
    } else if str_eq(s, "health") {
        Some(FilterField::Health)
    } else if str_eq(s, "loc") {
        Some(FilterField::Loc)
    } else if str_eq(s, "dirty") {
        Some(FilterField::Dirty)
    } else if str_eq(s, "branch") {
        Some(FilterField::Branch)
    } else if str_eq(s, "last_commit") {
        Some(FilterField::LastCommit)
    } else if str_eq(s, "tag") {
        Some(FilterField::Tag)
    } else {
        None
    }
}

fn op_named(s: &str) -> (r: Option<FilterOp>)
    ensures
        r == filter_op_of(s@),
{
    if str_eq(s, "eq") {
        Some(FilterOp::Eq)
    } else if str_eq(s, "gte") {
        Some(FilterOp::Gte)
    } else if str_eq(s, "lte") {
        Some(FilterOp::Lte)
    } else if str_eq(s, "gt") {
        Some(FilterOp::Gt)
    } else if str_eq(s, "lt") {
        Some(FilterOp::Lt)
    } else {
        None
    }
}

/// What a filter text asks for: its field, operator and value when all are
/// valid, or the error: bad syntax first, then an unknown field, then an
/// unknown operator.
pub open spec fn filter_request(input: Seq<char>) -> Result<(FilterField, FilterOp, Seq<char>), (int, Seq<char>)> {
    match filter_parts(input) {
        None => Err((0int, input)),
        Some((f, o, v)) => match filter_field_of(f) {
            None => Err((1int, f)),
            Some(field) => match filter_op_of(o) {
                None => Err((2int, o)),
                Some(op) => Ok((field, op, v)),
            },
        },
    }
}

/// The kind of a filter error and the text it names.
pub open spec fn filter_error_of(e: ReportError) -> (int, Seq<char>) {
    match e {
        ReportError::InvalidFilterSyntax(s) => (0int, s@),
        ReportError::InvalidFilterField(s) => (1int, s@),
        ReportError::InvalidFilterOperator(s) => (2int, s@),
        ReportError::InvalidSortField(s) => (3int, s@),
    }
}

/// Reads one filter.
pub fn parse_filter(input: &str) -> (r: Result<Filter, ReportError>)
    ensures
        match filter_request(input@) {
            Ok((field, op, v)) => r matches Ok(f) && f.field == field && f.op == op && f.value@ == v,
            Err(e) => r matches Err(err) && filter_error_of(err) == e,
        },
{
    let (field, op, value) = match parse_field_op_value(input, input) {
        Ok(parts) => parts,
        Err(e) => {
            return Err(e);
        },
    };
    let f = match field_named(field.as_str()) {
        Some(f) => f,
        None => {
            return Err(ReportError::InvalidFilterField(field));
        },
    };
    let o = match op_named(op.as_str()) {
        Some(o) => o,
        None => {
            return Err(ReportError::InvalidFilterOperator(op));
        },
    };
    Ok(Filter { field: f, op: o, value })
}

/// Reads all filters, stopping at the first that is invalid: any invalid
/// filter makes it fail, with the error of the first one.
pub fn parse_filters(inputs: &Vec<String>) -> (r: Result<Vec<Filter>, ReportError>)
    ensures
        (forall|k: int| 0 <= k < inputs.len() ==> #[trigger] filter_request(inputs@[k]@) is Ok) ==> (
        r matches Ok(fs) && fs.len() == inputs.len() && forall|k: int|
            0 <= k < inputs.len() ==> filter_request(inputs@[k]@) == Ok::<
                (FilterField, FilterOp, Seq<char>),
                (int, Seq<char>),
            >((#[trigger] fs@[k].field, fs@[k].op, fs@[k].value@))),
        (exists|k: int| 0 <= k < inputs.len() && #[trigger] filter_request(inputs@[k]@) is Err) ==> r is Err,
        r matches Err(e) ==> exists|k: int|
            0 <= k < inputs.len() && (forall|j: int| 0 <= j < k ==> #[trigger] filter_request(inputs@[j]@) is Ok)
                && filter_request(inputs@[k]@) == Err::<(FilterField, FilterOp, Seq<char>), (int, Seq<char>)>(
                filter_error_of(e),
            ),
{
    let mut fs: Vec<Filter> = Vec::new();
    let mut k: usize = 0;
    while k < inputs.len()
        invariant
            k <= inputs.len(),
            fs.len() == k,
            forall|j: int| 0 <= j < k ==> #[trigger] filter_request(inputs@[j]@) is Ok,
            forall|j: int|
                0 <= j < k ==> filter_request(inputs@[j]@) == Ok::<
                    (FilterField, FilterOp, Seq<char>),
                    (int, Seq<char>),
                >((#[trigger] fs@[j].field, fs@[j].op, fs@[j].value@)),
        decreases inputs.len() - k,
    {
        match parse_filter(inputs[k].as_str()) {
            Ok(f) => {
                fs.push(f);
            },
            Err(e) => {
                return Err(e);
            },
        }
        k = k + 1;
    }
    Ok(fs)
}

/// How two values compare as numbers, when both read as numbers.
#[derive(Debug, Clone, Copy, PartialEq, Eq, Structural)]
pub enum NumericOrder {
    Less,
    Equal,
    Greater,
    /// Both read as numbers, but one of them is not a number (NaN).
    Unordered,
}

/// The text a filter compares for a project: the path for `name`, the type,
/// `true`/`false` for `dirty`, the branch, the health score, the lines of
/// code, the days since the last commit, and for `tag` whether the project
/// carries the tag named by the filter's value.
pub open spec fn filter_value(
    p: ProjectSnapshot,
    field: FilterField,
    expected: Seq<char>,
    now: int,
    tags: Map<Seq<char>, Seq<Seq<char>>>,
) -> Seq<char> {
    match field {
        FilterField::Name => p.path@,
        FilterField::Type => p.project_type@,
        FilterField::Dirty => bool_text(p.is_dirty),
        FilterField::Branch => p.git_branch@,
        FilterField::Health => decimal(p.health_score as nat),
        FilterField::Loc => decimal(p.lines_of_code as nat),
        FilterField::LastCommit => int_decimal(days_between(now, p.last_commit_date as int)),
        FilterField::Tag => bool_text(tagged(tags, p.path@, expected)),
    }
}

/// Whether a value passes a filter. `eq` compares ignoring ASCII case; the
/// other operators compare as numbers when `numeric` gives the order of the
/// two texts read as numbers, and as text otherwise.
pub open spec fn passes(op: FilterOp, v: Seq<char>, expected: Seq<char>, numeric: Option<NumericOrder>) -> bool {
    match op {
        FilterOp::Eq => eq_ignore_ascii_case(v, expected),
        FilterOp::Gte => match numeric {
            Some(o) => o == NumericOrder::Greater || o == NumericOrder::Equal,
            None => lex_le(expected, v),
        },
        FilterOp::Lte => match numeric {
            Some(o) => o == NumericOrder::Less || o == NumericOrder::Equal,
            None => lex_le(v, expected),
        },
        FilterOp::Gt => match numeric {
            Some(o) => o == NumericOrder::Greater,
            None => lex_lt(expected, v),
        },
        FilterOp::Lt => match numeric {
            Some(o) => o == NumericOrder::Less,
            None => lex_lt(v, expected),
        },
    }
}

/// The text a filter compares for a project.
pub fn field_value(p: &ProjectSnapshot, f: &Filter, now: i64, tags: &TagsIndex) -> (v: String)
    requires
        tags.wf(),
    ensures
        v@ == filter_value(*p, f.field, f.value@, now as int, tags@),
{
    match f.field {
        FilterField::Name => p.path.clone(),
        FilterField::Type => p.project_type.clone(),
        FilterField::Dirty => bool_string(p.is_dirty),
        FilterField::Branch => p.git_branch.clone(),
        FilterField::Health => u64_text(p.health_score as u64),
        FilterField::Loc => u64_text(p.lines_of_code as u64),
        FilterField::LastCommit => i64_text(days_since(now, p.last_commit_date)),
        FilterField::Tag => bool_string(tags.has_tag(p.path.as_str(), f.value.as_str())),
    }
}

/// Whether a value passes a filter.
pub fn accepts(op: FilterOp, v: &str, expected: &str, numeric: Option<NumericOrder>) -> (r: bool)
    ensures
        r == passes(op, v@, expected@, numeric),
{
    match op {
        FilterOp::Eq => eq_ignoring_ascii_case(v, expected),
        _ => {
            let a = chars_of(v);
            let b = chars_of(expected);
            let below = lex_less(&a, &b);
            let above = lex_less(&b, &a);
            proof {
                crate::text::lemma_lex_total(a@, b@);
            }
            match op {
                FilterOp::Gte => match numeric {
                    Some(o) => o == NumericOrder::Greater || o == NumericOrder::Equal,
                    None => !below,
                },
                FilterOp::Lte => match numeric {
                    Some(o) => o == NumericOrder::Less || o == NumericOrder::Equal,
                    None => !above,
                },
                FilterOp::Gt => match numeric {
                    Some(o) => o == NumericOrder::Greater,
                    None => above,
                },
                _ => match numeric {
                    Some(o) => o == NumericOrder::Less,
                    None => below,
                },
            }
        },
    }
}

/// Whether project `i` passes every filter, with the numeric comparisons of
/// `numeric[k][i]`.
pub open spec fn passes_all(
    ps: Seq<ProjectSnapshot>,
    filters: Seq<Filter>,
    now: int,
    tags: Map<Seq<char>, Seq<Seq<char>>>,
    numeric: Seq<Vec<Option<NumericOrder>>>,
    i: int,
) -> bool {
    forall|k: int|
        0 <= k < filters.len() ==> passes(
            #[trigger] filters[k].op,
            filter_value(ps[i], filters[k].field, filters[k].value@, now, tags),
            filters[k].value@,
            numeric[k]@[i],
        )
}

/// The elements of `s` at the positions where `keep` holds, in order.
pub open spec fn select<A>(s: Seq<A>, keep: spec_fn(int) -> bool) -> Seq<A>
    decreases s.len(),
{
    if s.len() == 0 {
        s
    } else if keep(s.len() - 1) {
        select(s.drop_last(), keep).push(s.last())
    } else {
        select(s.drop_last(), keep)
    }
}

/// Keeps the projects that pass every filter, in order (the filters
/// combine with AND). `numeric[k][i]` is how the value of project `i` and
/// the value of filter `k` compare when both read as numbers (`None` when
/// one of them does not); it decides `gte`, `lte`, `gt` and `lt`.
pub fn apply_filters(
    projects: Vec<ProjectSnapshot>,
    filters: &Vec<Filter>,
    now: i64,
    tags: &TagsIndex,
    numeric: &Vec<Vec<Option<NumericOrder>>>,
) -> (r: Vec<ProjectSnapshot>)
    requires
        tags.wf(),
        numeric.len() == filters.len(),
        forall|k: int| 0 <= k < numeric.len() ==> (#[trigger] numeric@[k]).len() == projects.len(),
    ensures
        r@ == select(projects@, |i: int| passes_all(projects@, filters@, now as int, tags@, numeric@, i)),
{
    let ghost keep = |i: int| passes_all(projects@, filters@, now as int, tags@, numeric@, i);
    let mut r: Vec<ProjectSnapshot> = Vec::new();
    let mut i: usize = 0;
    while i < projects.len()
        invariant
            i <= projects.len(),
            tags.wf(),
            numeric.len() == filters.len(),
            forall|k: int| 0 <= k < numeric.len() ==> (#[trigger] numeric@[k]).len() == projects.len(),
            keep == (|i: int| passes_all(projects@, filters@, now as int, tags@, numeric@, i)),
            r@ == select(projects@.subrange(0, i as int), keep),
        decreases projects.len() - i,
    {
        let p = &projects[i];
        let mut ok = true;
        let mut k: usize = 0;
        while k < filters.len()
            invariant
                k <= filters.len(),
                i < projects.len(),
                *p == projects@[i as int],
                tags.wf(),
                numeric.len() == filters.len(),
                forall|k: int| 0 <= k < numeric.len() ==> (#[trigger] numeric@[k]).len() == projects.len(),
                ok == forall|j: int|
                    0 <= j < k ==> passes(
                        #[trigger] filters@[j].op,
                        filter_value(projects@[i as int], filters@[j].field, filters@[j].value@, now as int, tags@),
                        filters@[j].value@,
                        numeric@[j]@[i as int],
                    ),
            decreases filters.len() - k,
        {
            let f = &filters[k];
            let v = field_value(p, f, now, tags);
            let pass = accepts(f.op, v.as_str(), f.value.as_str(), numeric[k][i]);
            let ghost old_ok = ok;
            ok = ok && pass;
            proof {
                assert(*f == filters@[k as int]);
                assert(*p == projects@[i as int]);
                assert(numeric[k as int][i as int] == numeric@[k as int]@[i as int]);
                assert(pass == passes(
                    filters@[k as int].op,
                    filter_value(projects@[i as int], filters@[k as int].field, filters@[k as int].value@, now as int, tags@),
                    filters@[k as int].value@,
                    numeric@[k as int]@[i as int],
                ));
                if ok {
                    assert forall|j: int| 0 <= j < k + 1 implies passes(
                        #[trigger] filters@[j].op,
                        filter_value(projects@[i as int], filters@[j].field, filters@[j].value@, now as int, tags@),
                        filters@[j].value@,
                        numeric@[j]@[i as int],
                    ) by {}
                } else if old_ok {
                    assert(!passes(
                        filters@[k as int].op,
                        filter_value(projects@[i as int], filters@[k as int].field, filters@[k as int].value@, now as int, tags@),
                        filters@[k as int].value@,
                        numeric@[k as int]@[i as int],
                    ));
                }
            }
            k = k + 1;
        }
        let ghost prefix = projects@.subrange(0, i + 1);
        assert(prefix.drop_last() =~= projects@.subrange(0, i as int));
        assert(ok == keep(i as int));
        if ok {
            r.push(p.copy());
        }
        i = i + 1;
    }
    assert(projects@.subrange(0, projects.len() as int) =~= projects@);
    r
}



/// The projects of a report: those passing every filter, in order, then
/// sorted when a sort is asked for (filters come first). The filters and
/// `numeric` are as `apply_filters` takes them.
pub fn report_projects(
    projects: Vec<ProjectSnapshot>,
    filters: &Vec<Filter>,
    now: i64,
    tags: &TagsIndex,
    numeric: &Vec<Vec<Option<NumericOrder>>>,
    sort_spec: Option<&str>,
) -> (r: Result<Vec<ProjectSnapshot>, ReportError>)
    requires
        tags.wf(),
        numeric.len() == filters.len(),
        forall|k: int| 0 <= k < numeric.len() ==> (#[trigger] numeric@[k]).len() == projects.len(),
    ensures
        ({
            let kept = select(projects@, |i: int| passes_all(projects@, filters@, now as int, tags@, numeric@, i));
            match sort_spec {
                None => r matches Ok(v) && v@ == kept,
                Some(sp) => match sort_field_of(sort_request(sp@).0) {
                    None => r matches Err(ReportError::InvalidSortField(f)) && f@ == sort_request(sp@).0,
                    Some(field) => r matches Ok(v) && exists|perm: Seq<usize>|
                        stable_order(project_keys(kept, field), sort_request(sp@).1, perm) && v@ == reordered(
                            kept,
                            perm,
                        ),
                },
            }
        }),
{
    let kept = apply_filters(projects, filters, now, tags, numeric);
    match sort_spec {
        None => Ok(kept),
        Some(sp) => apply_sort(kept, sp),
    }
}

// ---------------------------------------------------------------------------
// Sorting
// ---------------------------------------------------------------------------

/// A field the projects can be sorted by.
#[derive(Debug, Clone, Copy, PartialEq, Eq, Structural)]
pub enum SortField {
    Name,
    Type,
    Health,
    Loc,
    Branch,
    LastCommit,
}

/// The field a sort request names (`lines_of_code` is another name for
/// `loc`).
pub open spec fn sort_field_of(s: Seq<char>) -> Option<SortField> {
    if s == "name"@ {
        Some(SortField::Name)
    } else if s == "type"@ {
        Some(SortField::Type)
    } else if s == "health"@ {
        Some(SortField::Health)
    } else if s == "loc"@ || s == "lines_of_code"@ {
        Some(SortField::Loc)
    } else if s == "branch"@ {
        Some(SortField::Branch)
    } else if s == "last_commit"@ {
        Some(SortField::LastCommit)
    } else {
        None
    }
}

/// A sort request split into field and direction: a leading `-` asks for
/// descending order.
pub open spec fn sort_request(spec: Seq<char>) -> (Seq<char>, bool) {
    if spec.len() > 0 && spec[0] == '-' {
        (spec.drop_first(), true)
    } else {
        (spec, false)
    }
}

/// The key of a project for a sort field: names, types and branches compare
/// as text, the others as numbers.
pub open spec fn project_key(p: ProjectSnapshot, field: SortField) -> KeyValue {
    match field {
        SortField::Name => KeyValue::Text(p.path@),
        SortField::Type => KeyValue::Text(p.project_type@),
        SortField::Health => KeyValue::Num(p.health_score as int),
        SortField::Loc => KeyValue::Num(p.lines_of_code as int),
        SortField::Branch => KeyValue::Text(p.git_branch@),
        SortField::LastCommit => KeyValue::Num(p.last_commit_date as int),
    }
}

/// The keys of some projects.
pub open spec fn project_keys(ps: Seq<ProjectSnapshot>, field: SortField) -> Seq<KeyValue> {
    ps.map_values(|p: ProjectSnapshot| project_key(p, field))
}

/// The elements of `s` in the order `perm` lists their positions.
pub open spec fn reordered<A>(s: Seq<A>, perm: Seq<usize>) -> Seq<A> {
    perm.map_values(|i: usize| s[i as int])
}

fn sort_field_named(s: &str) -> (r: Option<SortField>)
    ensures
        r == sort_field_of(s@),
{
    if str_eq(s, "name") {
        Some(SortField::Name)
    } else if str_eq(s, "type") {
        Some(SortField::Type)
    } else if str_eq(s, "health") {
        Some(SortField::Health)
    } else if str_eq(s, "loc") || str_eq(s, "lines_of_code") {
        Some(SortField::Loc)
    } else if str_eq(s, "branch") {
        Some(SortField::Branch)
    } else if str_eq(s, "last_commit") {
        Some(SortField::LastCommit)
    } else {
        None
    }
}

fn project_sort_key(p: &ProjectSnapshot, field: SortField) -> (k: SortKey)
    ensures
        k.value() == project_key(*p, field),
{
    match field {
        SortField::Name => SortKey::Text(chars_of(p.path.as_str())),
        SortField::Type => SortKey::Text(chars_of(p.project_type.as_str())),
        SortField::Health => SortKey::Num(p.health_score as i128),
        SortField::Loc => SortKey::Num(p.lines_of_code as i128),
        SortField::Branch => SortKey::Text(chars_of(p.git_branch.as_str())),
        SortField::LastCommit => SortKey::Num(p.last_commit_date as i128),
    }
}

/// Copies of the projects in the order `perm` gives.
pub fn reorder(ps: &Vec<ProjectSnapshot>, perm: &Vec<usize>) -> (r: Vec<ProjectSnapshot>)
    requires
        forall|i: int| 0 <= i < perm.len() ==> perm@[i] < ps.len(),
    ensures
        r@ == reordered(ps@, perm@),
{
    let mut r: Vec<ProjectSnapshot> = Vec::new();
    let mut i: usize = 0;
    while i < perm.len()
        invariant
            i <= perm.len(),
            forall|i: int| 0 <= i < perm.len() ==> perm@[i] < ps.len(),
            r@ == reordered(ps@, perm@.subrange(0, i as int)),
        decreases perm.len() - i,
    {
        r.push(ps[perm[i]].copy());
        assert(r@ =~= reordered(ps@, perm@.subrange(0, i + 1)));
        i = i + 1;
    }
    assert(perm@.subrange(0, perm.len() as int) =~= perm@);
    r
}

/// The order in which a stable sort by `field` puts the projects.
pub fn project_order(projects: &Vec<ProjectSnapshot>, field: SortField, desc: bool) -> (perm: Vec<usize>)
    ensures
        stable_order(project_keys(projects@, field), desc, perm@),
{
    let mut keys: Vec<SortKey> = Vec::new();
    let mut i: usize = 0;
    while i < projects.len()
        invariant
            i <= projects.len(),
            keys.len() == i,
            forall|j: int| 0 <= j < i ==> #[trigger] keys@[j].value() == project_key(projects@[j], field),
        decreases projects.len() - i,
    {
        keys.push(project_sort_key(&projects[i], field));
        i = i + 1;
    }
    assert(key_values(keys@) =~= project_keys(projects@, field));
    stable_order_of(&keys, desc)
}


/// Project `a` may come before project `b` in a sort by `field`
/// (ascending, or descending when `desc`), read on the projects' own
/// fields: names, types and branches in lexicographic order, health, lines
/// of code and last commit date as numbers.
pub open spec fn in_field_order(a: ProjectSnapshot, b: ProjectSnapshot, field: SortField, desc: bool) -> bool {
    match field {
        SortField::Name => if desc { lex_le(b.path@, a.path@) } else { lex_le(a.path@, b.path@) },
        SortField::Type => if desc {
            lex_le(b.project_type@, a.project_type@)
        } else {
            lex_le(a.project_type@, b.project_type@)
        },
        SortField::Health => if desc { a.health_score >= b.health_score } else { a.health_score <= b.health_score },
        SortField::Loc => if desc { a.lines_of_code >= b.lines_of_code } else { a.lines_of_code <= b.lines_of_code },
        SortField::Branch => if desc { lex_le(b.git_branch@, a.git_branch@) } else { lex_le(a.git_branch@, b.git_branch@) },
        SortField::LastCommit => if desc {
            a.last_commit_date >= b.last_commit_date
        } else {
            a.last_commit_date <= b.last_commit_date
        },
    }
}

/// A sorted report is in the order of the field it was sorted by: every
/// project comes no later than the ones after it by that field (so a sort
/// by `last_commit` is in ascending order of last commit date, a sort by
/// `-health` in descending order of health, and so on).
pub proof fn lemma_sorted_by_field(ps: Seq<ProjectSnapshot>, field: SortField, desc: bool, perm: Seq<usize>)
    requires
        stable_order(project_keys(ps, field), desc, perm),
    ensures
        forall|i: int, j: int|
            0 <= i < j < perm.len() ==> #[trigger] in_field_order(
                reordered(ps, perm)[i],
                #[trigger] reordered(ps, perm)[j],
                field,
                desc,
            ),
{
    assert forall|i: int, j: int| 0 <= i < j < perm.len() implies #[trigger] in_field_order(
        reordered(ps, perm)[i],
        #[trigger] reordered(ps, perm)[j],
        field,
        desc,
    ) by {
        let keys = project_keys(ps, field);
        assert(comes_before(keys, desc, perm[i] as int, perm[j] as int));
        assert(keys[perm[i] as int] == project_key(ps[perm[i] as int], field));
        assert(keys[perm[j] as int] == project_key(ps[perm[j] as int], field));
        assert(reordered(ps, perm)[i] == ps[perm[i] as int]);
        assert(reordered(ps, perm)[j] == ps[perm[j] as int]);
    }
}

/// The projects stably sorted by `field`, descending when `desc`.
pub fn sort_projects(projects: &Vec<ProjectSnapshot>, field: SortField, desc: bool) -> (r: Vec<ProjectSnapshot>)
    ensures
        exists|perm: Seq<usize>|
            stable_order(project_keys(projects@, field), desc, perm) && r@ == reordered(projects@, perm),
        forall|i: int, j: int| 0 <= i < j < r.len() ==> #[trigger] in_field_order(r@[i], #[trigger] r@[j], field, desc),
{
    let perm = project_order(projects, field, desc);
    proof {
        lemma_sorted_by_field(projects@, field, desc, perm@);
    }
    reorder(projects, &perm)
}

/// Sorts the projects by the field a request names (`-field` for
/// descending). Projects with equal keys keep their order.
pub fn apply_sort(projects: Vec<ProjectSnapshot>, sort_spec: &str) -> (r: Result<Vec<ProjectSnapshot>, ReportError>)
    ensures
        match sort_field_of(sort_request(sort_spec@).0) {
            None => r matches Err(ReportError::InvalidSortField(f)) && f@ == sort_request(sort_spec@).0,
            Some(field) => r matches Ok(v) && (exists|perm: Seq<usize>|
                stable_order(project_keys(projects@, field), sort_request(sort_spec@).1, perm) && v@
                    == reordered(projects@, perm)) && forall|i: int, j: int|
                0 <= i < j < v.len() ==> #[trigger] in_field_order(
                    v@[i],
                    #[trigger] v@[j],
                    field,
                    sort_request(sort_spec@).1,
                ),
        },
{
    let chars = chars_of(sort_spec);
    let (field_text, desc) = if chars.len() > 0 && chars[0] == '-' {
        (slice_chars(&chars, 1, chars.len()), true)
    } else {
        (slice_chars(&chars, 0, chars.len()), false)
    };
    assert(chars@.subrange(1, chars.len() as int) =~= chars@.drop_first());
    assert(chars@.subrange(0, chars.len() as int) =~= chars@);
    let name = string_of(&field_text);
    match sort_field_named(name.as_str()) {
        None => Err(ReportError::InvalidSortField(name)),
        Some(field) => Ok(sort_projects(&projects, field, desc)),
    }
}

// ---------------------------------------------------------------------------
// Terminal table
// ---------------------------------------------------------------------------

/// Visible width of text read from a state: inside an escape sequence
/// (`esc`) characters are not shown up to and including the closing `m`;
/// outside, `ESC` opens a sequence and every other character shows.
pub open spec fn width_from(s: Seq<char>, esc: bool) -> nat
    decreases s.len(),
{
    if s.len() == 0 {
        0
    } else if esc {
        if s[0] == 'm' {
            width_from(s.drop_first(), false)
        } else {
            width_from(s.drop_first(), true)
        }
    } else if s[0] == '\x1b' {
        width_from(s.drop_first(), true)
    } else {
        1 + width_from(s.drop_first(), false)
    }
}

/// Whether reading `s` from state `esc` ends inside an escape sequence.
pub open spec fn ends_in_escape(s: Seq<char>, esc: bool) -> bool
    decreases s.len(),
{
    if s.len() == 0 {
        esc
    } else if esc {
        ends_in_escape(s.drop_first(), s[0] != 'm')
    } else {
        ends_in_escape(s.drop_first(), s[0] == '\x1b')
    }
}

/// Number of characters a terminal shows of `s`: ANSI escape sequences
/// (from `ESC` to the next `m`) take no room.
pub open spec fn visible_width_of(s: Seq<char>) -> nat {
    width_from(s, false)
}

/// Widths add up over a concatenation, the second part read from the state
/// the first ends in.
pub proof fn lemma_width_concat(a: Seq<char>, b: Seq<char>, esc: bool)
    ensures
        width_from(a + b, esc) == width_from(a, esc) + width_from(b, ends_in_escape(a, esc)),
        ends_in_escape(a + b, esc) == ends_in_escape(b, ends_in_escape(a, esc)),
    decreases a.len(),
{
    if a.len() > 0 {
        assert((a + b).drop_first() =~= a.drop_first() + b);
        assert((a + b)[0] == a[0]);
        let next = if esc {
            a[0] != 'm'
        } else {
            a[0] == '\x1b'
        };
        lemma_width_concat(a.drop_first(), b, next);
    } else {
        assert(a + b =~= b);
    }
}

/// Text without `ESC` shows every character.
pub proof fn lemma_width_plain(s: Seq<char>)
    requires
        forall|i: int| 0 <= i < s.len() ==> s[i] != '\x1b',
    ensures
        width_from(s, false) == s.len(),
        !ends_in_escape(s, false),
    decreases s.len(),
{
    if s.len() > 0 {
        lemma_width_plain(s.drop_first());
    }
}

/// Visible width of text: ANSI escape sequences take no room.
pub fn visible_width(s: &str) -> (w: usize)
    ensures
        w == visible_width_of(s@),
{
    let v = chars_of(s);
    let mut w: usize = 0;
    let mut esc = false;
    let mut i: usize = 0;
    assert(v@.subrange(0, v.len() as int) =~= v@);
    while i < v.len()
        invariant
            v@ == s@,
            i <= v.len(),
            w <= i,
            visible_width_of(s@) == w + width_from(v@.subrange(i as int, v.len() as int), esc),
        decreases v.len() - i,
    {
        let ghost rest = v@.subrange(i as int, v.len() as int);
        assert(rest[0] == v@[i as int]);
        assert(rest.drop_first() =~= v@.subrange(i + 1, v.len() as int));
        let c = v[i];
        if esc {
            if c == 'm' {
                esc = false;
            }
        } else if c == '\x1b' {
            esc = true;
        } else {
            w = w + 1;
        }
        i = i + 1;
    }
    w
}

/// `s` padded with spaces to a visible width of `width` (unchanged when
/// already that wide).
pub open spec fn padded(s: Seq<char>, width: nat) -> Seq<char> {
    if visible_width_of(s) >= width {
        s
    } else {
        s + repeat(seq![' '], (width - visible_width_of(s)) as nat)
    }
}

/// `s` padded with spaces to a visible width of `width`.
pub fn pad_right(s: &str, width: usize) -> (r: String)
    ensures
        r@ == padded(s@, width as nat),
{
    let vw = visible_width(s);
    let mut r = owned(s);
    if vw < width {
        push_repeat(&mut r, ' ', width - vw);
    }
    r
}

/// The cells of a table row after the opening bar: each padded to its
/// column width between a space and ` │`.
pub open spec fn row_cells(widths: Seq<usize>, cells: Seq<Seq<char>>) -> Seq<char>
    decreases cells.len(),
{
    if cells.len() == 0 {
        Seq::empty()
    } else {
        row_cells(widths, cells.drop_last()) + seq![' '] + padded(
            cells.last(),
            widths[cells.len() - 1] as nat,
        ) + " │"@
    }
}

/// A table row: `│`, then each cell padded to its column width.
pub open spec fn table_row_of(widths: Seq<usize>, cells: Seq<Seq<char>>) -> Seq<char> {
    seq!['│'] + row_cells(widths, cells)
}

/// One table row.
pub fn table_row(widths: &Vec<usize>, cells: &Vec<String>) -> (r: String)
    requires
        cells.len() <= widths.len(),
    ensures
        r@ == table_row_of(widths@, crate::text::texts(cells@)),
{
    let mut row = String::new();
    push_char(&mut row, '│');
    let mut i: usize = 0;
    while i < cells.len()
        invariant
            i <= cells.len(),
            cells.len() <= widths.len(),
            row@ == seq!['│'] + row_cells(widths@, crate::text::texts(cells@.subrange(0, i as int))),
        decreases cells.len() - i,
    {
        let ghost before = row@;
        push_char(&mut row, ' ');
        let cell = pad_right(cells[i].as_str(), widths[i]);
        row.append(cell.as_str());
        row.append(" │");
        proof {
            let t = crate::text::texts(cells@.subrange(0, i + 1));
            assert(t.drop_last() =~= crate::text::texts(cells@.subrange(0, i as int)));
            assert(t.last() == cells@[i as int]@);
            assert(row@ =~= seq!['│'] + row_cells(widths@, t));
        }
        i = i + 1;
    }
    assert(cells@.subrange(0, cells.len() as int) =~= cells@);
    row
}

/// The segments of a border line between its end pieces: for each column a
/// run of `─` two longer than the column, with `mid` between columns.
pub open spec fn rule_body(widths: Seq<usize>, mid: char) -> Seq<char>
    decreases widths.len(),
{
    if widths.len() == 0 {
        Seq::empty()
    } else {
        rule_body(widths.drop_last(), mid) + (if widths.len() > 1 {
            seq![mid]
        } else {
            Seq::empty()
        }) + repeat(seq!['─'], (widths.last() + 2) as nat)
    }
}

/// A border line of the table.
pub open spec fn rule_line(widths: Seq<usize>, left: char, mid: char, right: char) -> Seq<char> {
    seq![left] + rule_body(widths, mid) + seq![right]
}

fn rule(widths: &Vec<usize>, left: char, mid: char, right: char) -> (r: String)
    requires
        forall|i: int| 0 <= i < widths.len() ==> widths@[i] <= usize::MAX - 2,
    ensures
        r@ == rule_line(widths@, left, mid, right),
{
    let mut s = String::new();
    push_char(&mut s, left);
    let mut i: usize = 0;
    while i < widths.len()
        invariant
            i <= widths.len(),
            forall|i: int| 0 <= i < widths.len() ==> widths@[i] <= usize::MAX - 2,
            s@ == seq![left] + rule_body(widths@.subrange(0, i as int), mid),
        decreases widths.len() - i,
    {
        let ghost before = s@;
        if i > 0 {
            push_char(&mut s, mid);
        }
        push_repeat(&mut s, '─', widths[i] + 2);
        proof {
            let w = widths@.subrange(0, i + 1);
            assert(w.drop_last() =~= widths@.subrange(0, i as int));
            assert(s@ =~= seq![left] + rule_body(w, mid));
        }
        i = i + 1;
    }
    assert(widths@.subrange(0, widths.len() as int) =~= widths@);
    push_char(&mut s, right);
    s
}

/// The line between two rows.
pub fn table_sep(widths: &Vec<usize>) -> (r: String)
    requires
        forall|i: int| 0 <= i < widths.len() ==> widths@[i] <= usize::MAX - 2,
    ensures
        r@ == rule_line(widths@, '├', '┼', '┤'),
{
    rule(widths, '├', '┼', '┤')
}

/// The top border.
pub fn table_top(widths: &Vec<usize>) -> (r: String)
    requires
        forall|i: int| 0 <= i < widths.len() ==> widths@[i] <= usize::MAX - 2,
    ensures
        r@ == rule_line(widths@, '┌', '┬', '┐'),
{
    rule(widths, '┌', '┬', '┐')
}

/// The bottom border.
pub fn table_bottom(widths: &Vec<usize>) -> (r: String)
    requires
        forall|i: int| 0 <= i < widths.len() ==> widths@[i] <= usize::MAX - 2,
    ensures
        r@ == rule_line(widths@, '└', '┴', '┘'),
{
    rule(widths, '└', '┴', '┘')
}

// ---------------------------------------------------------------------------
// Status
// ---------------------------------------------------------------------------

/// No commit for `stale_threshold_days` days or more.
pub open spec fn stale(now: int, last_commit: int, stale_threshold_days: u32) -> bool {
    days_between(now, last_commit) >= stale_threshold_days
}

/// Whether a project is stale at time `now`.
pub fn is_stale(last_commit: i64, stale_threshold_days: u32, now: i64) -> (r: bool)
    ensures
        r == stale(now as int, last_commit as int, stale_threshold_days),
{
    days_since(now, last_commit) >= stale_threshold_days as i64
}

/// The status shown for a project: `dirty` (yellow) when the tree is
/// dirty, else `stale` (red) when stale, else `clean` (green).
pub open spec fn status_label_of(is_dirty: bool, now: int, last_commit: int, stale_threshold_days: u32) -> Seq<char> {
    if is_dirty {
        wrap("\x1b[33m"@, "dirty"@)
    } else if stale(now, last_commit, stale_threshold_days) {
        wrap("\x1b[31m"@, "stale"@)
    } else {
        wrap("\x1b[32m"@, "clean"@)
    }
}

/// The coloured status of a project at time `now`.
pub fn status_label(is_dirty: bool, last_commit: i64, stale_threshold_days: u32, now: i64) -> (r: String)
    ensures
        r@ == status_label_of(is_dirty, now as int, last_commit as int, stale_threshold_days),
{
    if is_dirty {
        return yellow("dirty");
    }
    if is_stale(last_commit, stale_threshold_days, now) {
        return red("stale");
    }
    green("clean")
}


// ---------------------------------------------------------------------------
// The table lines up
// ---------------------------------------------------------------------------

/// Columns' total width on screen: each column's width, plus the space
/// before it and ` │` after it.
pub open spec fn column_span(widths: Seq<usize>) -> nat
    decreases widths.len(),
{
    if widths.len() == 0 {
        0
    } else {
        column_span(widths.drop_last()) + widths.last() as nat + 3
    }
}

proof fn lemma_repeat_facts(c: char, n: nat)
    ensures
        repeat(seq![c], n).len() == n,
        forall|i: int| 0 <= i < n ==> repeat(seq![c], n)[i] == c,
    decreases n,
{
    if n > 0 {
        lemma_repeat_facts(c, (n - 1) as nat);
    }
}

proof fn lemma_padded_width(s: Seq<char>, w: nat)
    requires
        !ends_in_escape(s, false),
        visible_width_of(s) <= w,
    ensures
        width_from(padded(s, w), false) == w,
        !ends_in_escape(padded(s, w), false),
{
    if visible_width_of(s) < w {
        let sp = repeat(seq![' '], (w - visible_width_of(s)) as nat);
        lemma_repeat_facts(' ', (w - visible_width_of(s)) as nat);
        lemma_width_plain(sp);
        lemma_width_concat(s, sp, false);
    }
}

proof fn lemma_row_cells_width(widths: Seq<usize>, cells: Seq<Seq<char>>)
    requires
        cells.len() <= widths.len(),
        forall|i: int|
            0 <= i < cells.len() ==> !ends_in_escape(#[trigger] cells[i], false) && visible_width_of(cells[i])
                <= widths[i],
    ensures
        width_from(row_cells(widths, cells), false) == column_span(widths.subrange(0, cells.len() as int)),
        !ends_in_escape(row_cells(widths, cells), false),
    decreases cells.len(),
{
    if cells.len() > 0 {
        let k = cells.len() - 1;
        lemma_row_cells_width(widths, cells.drop_last());
        let prev = row_cells(widths, cells.drop_last());
        let cell = padded(cells.last(), widths[k] as nat);
        assert(cells.last() == cells[k]);
        lemma_padded_width(cells.last(), widths[k] as nat);
        let tail = " │"@;
        assert(tail =~= seq![' ', '│']) by {
            reveal_strlit(" │");
        }
        lemma_width_plain(seq![' ']);
        lemma_width_plain(tail);
        lemma_width_concat(prev, seq![' '], false);
        lemma_width_concat(prev + seq![' '], cell, false);
        lemma_width_concat(prev + seq![' '] + cell, tail, false);
        assert(widths.subrange(0, cells.len() as int).drop_last() =~= widths.subrange(0, k));
    }
}

proof fn lemma_rule_body_len(widths: Seq<usize>, mid: char)
    requires
        mid != '\x1b',
    ensures
        widths.len() > 0 ==> rule_body(widths, mid).len() + 1 == column_span(widths),
        forall|i: int| 0 <= i < rule_body(widths, mid).len() ==> rule_body(widths, mid)[i] != '\x1b',
    decreases widths.len(),
{
    if widths.len() > 0 {
        lemma_rule_body_len(widths.drop_last(), mid);
        lemma_repeat_facts('─', (widths.last() + 2) as nat);
        let a = rule_body(widths.drop_last(), mid);
        let b: Seq<char> = if widths.len() > 1 {
            seq![mid]
        } else {
            Seq::empty()
        };
        let c = repeat(seq!['─'], (widths.last() + 2) as nat);
        assert(rule_body(widths, mid) == a + b + c);
        assert(column_span(widths) == column_span(widths.drop_last()) + widths.last() as nat + 3);
        if widths.len() == 1 {
            assert(a.len() == 0);
            assert(column_span(widths.drop_last()) == 0);
        } else {
            assert(a.len() + 1 == column_span(widths.drop_last()));
        }
        assert(rule_body(widths, mid).len() == a.len() + b.len() + c.len());
        assert forall|i: int| 0 <= i < rule_body(widths, mid).len() implies rule_body(widths, mid)[i] != '\x1b' by {
            if i < a.len() {
                assert(rule_body(widths, mid)[i] == a[i]);
            } else if i < a.len() + b.len() {
                assert(rule_body(widths, mid)[i] == b[i - a.len()]);
            } else {
                assert(rule_body(widths, mid)[i] == c[i - a.len() - b.len()]);
            }
        }
    }
}

/// Every line of the table has the same width on screen: a row whose cells
/// each fit their column (and close their colour sequences) is exactly as
/// wide as the top, separator and bottom lines.
pub proof fn lemma_table_lines_align(
    widths: Seq<usize>,
    cells: Seq<Seq<char>>,
    left: char,
    mid: char,
    right: char,
)
    requires
        widths.len() > 0,
        cells.len() == widths.len(),
        forall|i: int|
            0 <= i < cells.len() ==> !ends_in_escape(#[trigger] cells[i], false) && visible_width_of(cells[i])
                <= widths[i],
        left != '\x1b',
        mid != '\x1b',
        right != '\x1b',
    ensures
        visible_width_of(table_row_of(widths, cells)) == rule_line(widths, left, mid, right).len(),
        visible_width_of(rule_line(widths, left, mid, right)) == rule_line(widths, left, mid, right).len(),
{
    lemma_row_cells_width(widths, cells);
    assert(widths.subrange(0, cells.len() as int) =~= widths);
    lemma_width_plain(seq!['│']);
    lemma_width_concat(seq!['│'], row_cells(widths, cells), false);
    lemma_rule_body_len(widths, mid);
    let line = rule_line(widths, left, mid, right);
    let body = rule_body(widths, mid);
    assert forall|i: int| 0 <= i < line.len() implies line[i] != '\x1b' by {
        if i == 0 {
        } else if i < 1 + body.len() {
            assert(line[i] == body[i - 1]);
        } else {
        }
    }
    lemma_width_plain(line);
}


// ---------------------------------------------------------------------------
// Rows of the report
// ---------------------------------------------------------------------------

proof fn lemma_utf8_prefix_grows(s: Seq<char>, a: int, b: int)
    requires
        0 <= a <= b <= s.len(),
    ensures
        utf8_len(s.take(a)) + (b - a) <= utf8_len(s.take(b)),
    decreases b - a,
{
    if a < b {
        lemma_utf8_prefix_grows(s, a, b - 1);
        assert(s.take(b).drop_last() =~= s.take(b - 1));
    }
}

/// A branch can be cut after its first 10 bytes: it is no longer, or a
/// character ends there.
pub open spec fn cuttable(b: Seq<char>) -> bool {
    utf8_len(b) <= 10 || exists|k: int| 0 <= k <= b.len() && utf8_len(#[trigger] b.take(k)) == 10
}

/// `r` is the branch `b` as the table shows it: `b` itself up to 10 bytes,
/// else its first 10 bytes and `…`.
pub open spec fn branch_cut(b: Seq<char>, r: Seq<char>) -> bool {
    &&& utf8_len(b) <= 10 ==> r == b
    &&& utf8_len(b) > 10 ==> exists|k: int|
        0 <= k <= b.len() && utf8_len(#[trigger] b.take(k)) == 10 && r == b.take(k) + "\u{2026}"@
}


/// Whether a branch name can be cut after its first 10 bytes.
pub fn is_cuttable(branch: &str) -> (r: bool)
    ensures
        r == cuttable(branch@),
{
    let cs = chars_of(branch);
    let mut bytes: usize = 0;
    let mut k: usize = 0;
    assert(cs@.take(0) =~= Seq::<char>::empty());
    while k < cs.len() && bytes < 10
        invariant
            cs@ == branch@,
            k <= cs.len(),
            bytes == utf8_len(cs@.take(k as int)),
            bytes <= 13,
            forall|j: int| 0 <= j < k ==> utf8_len(#[trigger] cs@.take(j)) < 10,
        decreases cs.len() - k,
    {
        assert(cs@.take(k + 1).drop_last() =~= cs@.take(k as int));
        bytes = bytes + crate::text::char_width(cs[k]);
        k = k + 1;
    }
    proof {
        assert(cs@.take(cs.len() as int) =~= cs@);
        if bytes > 10 {
            lemma_utf8_prefix_grows(cs@, k as int, cs.len() as int);
            assert forall|j: int| 0 <= j <= cs.len() implies utf8_len(#[trigger] cs@.take(j)) != 10 by {
                if j > k {
                    lemma_utf8_prefix_grows(cs@, k as int, j);
                }
            }
        } else if bytes < 10 {
            assert(k == cs.len());
        }
    }
    bytes <= 10
}

/// A branch name as the table shows it: cut after its first 10 bytes and
/// followed by `…` when it is longer. The cut must fall between two
/// characters.
pub fn branch_shown(branch: &str) -> (r: String)
    requires
        cuttable(branch@),
    ensures
        branch_cut(branch@, r@),
{
    let cs = chars_of(branch);
    let total = utf8_len_capped(&cs, 11);
    if total <= 10 {
        return String::from_str(branch);
    }
    let ghost k0 = choose|k: int| 0 <= k <= branch@.len() && utf8_len(#[trigger] branch@.take(k)) == 10;
    let mut k: usize = 0;
    let mut bytes: usize = 0;
    assert(cs@.take(0) =~= Seq::<char>::empty());
    while bytes < 10
        invariant
            cs@ == branch@,
            utf8_len(branch@) > 10,
            0 <= k0 <= branch@.len(),
            utf8_len(branch@.take(k0)) == 10,
            k <= k0,
            bytes == utf8_len(cs@.take(k as int)),
            bytes <= 10,
        decreases 10 - bytes,
    {
        proof {
            if k == k0 {
                assert(false);
            }
            lemma_utf8_prefix_grows(cs@, k + 1, k0);
            assert(cs@.take(k + 1).drop_last() =~= cs@.take(k as int));
        }
        assert(k < k0 && k0 <= cs.len());
        bytes = bytes + crate::text::char_width(cs[k]);
        k = k + 1;
    }
    let head = slice_chars(&cs, 0, k);
    assert(head@ =~= branch@.take(k as int));
    let s = string_of(&head);
    s.concat("\u{2026}")
}


/// How the last commit is shown in the table: its day, red when the
/// project is stale, white otherwise.
pub open spec fn commit_cell(p: ProjectSnapshot, now: int, stale_threshold_days: u32) -> Seq<char> {
    wrap(
        if stale(now, p.last_commit_date as int, stale_threshold_days) {
            "\x1b[31m"@
        } else {
            "\x1b[37m"@
        },
        day_shown(p.last_commit_date),
    )
}

/// The cells of a project's row in the report table at time `now`: its
/// name in blue, its type, its branch (cut to 10 bytes), its status, the
/// day of its last commit and its coloured health.
pub fn report_cells(p: &ProjectSnapshot, now: i64, stale_threshold_days: u32) -> (r: Vec<String>)
    requires
        cuttable(p.git_branch@),
    ensures
        r.len() == 6,
        r@[0]@ == wrap("\x1b[34m"@, last_segment(p.path@)),
        r@[1]@ == p.project_type@,
        branch_cut(p.git_branch@, r@[2]@),
        r@[3]@ == status_label_of(p.is_dirty, now as int, p.last_commit_date as int, stale_threshold_days),
        r@[4]@ == commit_cell(*p, now as int, stale_threshold_days),
        r@[5]@ == wrap(health_paint(p.health_score), health_text(p.health_score)),
{
    let name = display_name(p.path.as_str());
    let day = format_day(p.last_commit_date);
    let commit = if is_stale(p.last_commit_date, stale_threshold_days, now) {
        red(day.as_str())
    } else {
        white(day.as_str())
    };
    let mut r: Vec<String> = Vec::new();
    r.push(blue(name.as_str()));
    r.push(p.project_type.clone());
    r.push(branch_shown(p.git_branch.as_str()));
    r.push(status_label(p.is_dirty, p.last_commit_date, stale_threshold_days, now));
    r.push(commit);
    r.push(health_colored(p.health_score));
    r
}

/// A project's row of the Markdown report at time `now`.
pub open spec fn markdown_row_of(p: ProjectSnapshot, now: int, stale_threshold_days: u32) -> Seq<char> {
    "| "@ + last_segment(p.path@) + " | "@ + p.project_type@ + " | "@ + p.git_branch@ + " | "@ + status_label_of(
        p.is_dirty,
        now,
        p.last_commit_date as int,
        stale_threshold_days,
    ) + " | "@ + day_shown(p.last_commit_date) + " | "@ + health_text(p.health_score) + " |"@
}

/// A project's row of the Markdown report.
pub fn markdown_row(p: &ProjectSnapshot, now: i64, stale_threshold_days: u32) -> (r: String)
    ensures
        r@ == markdown_row_of(*p, now as int, stale_threshold_days),
{
    let s = String::from_str("| ");
    let s = s.concat(display_name(p.path.as_str()).as_str());
    let s = s.concat(" | ");
    let s = s.concat(p.project_type.as_str());
    let s = s.concat(" | ");
    let s = s.concat(p.git_branch.as_str());
    let s = s.concat(" | ");
    let s = s.concat(status_label(p.is_dirty, p.last_commit_date, stale_threshold_days, now).as_str());
    let s = s.concat(" | ");
    let s = s.concat(format_day(p.last_commit_date).as_str());
    let s = s.concat(" | ");
    let s = s.concat(health_text_of(p.health_score).as_str());
    s.concat(" |")
}

} // verus!
