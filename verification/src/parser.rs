//! The query language: what a query is, and how its text is read.

use crate::error::{QueryError, QueryErrorView};
use crate::scan::{
    is_keyword_at, keyword_at, lemma_spaces_end_bounds, lemma_word_end_bounds,
    parse_until_next_keyword, skip_spaces, skip_word, spaces_end, token_end, word_end,
};
use crate::text::{chars_of, is_alphanumeric, str_eq, substring, Order};
use vstd::prelude::*;
use vstd::string::StrSliceExecFns;

verus! {

/// The file that a query reads, and the sheet in it where the file has sheets.
#[derive(Debug, PartialEq)]
pub struct FileInfo {
    pub path: String,
    pub sheet: Option<String>,
}

/// What a `FileInfo` is.
pub struct FileInfoView {
    pub path: Seq<char>,
    pub sheet: Option<Seq<char>>,
}

impl View for FileInfo {
    type V = FileInfoView;

    open spec fn view(&self) -> FileInfoView {
        FileInfoView {
            path: self.path@,
            sheet: match self.sheet {
                Some(s) => Some(s@),
                None => None,
            },
        }
    }
}

/// How a column's value is held against a literal.
#[derive(Clone, Copy, Debug, PartialEq, Eq, Structural)]
pub enum ComparisonOperator {
    Equal,
    NotEqual,
    GreaterThan,
    LessThan,
    GreaterThanOrEqual,
    LessThanOrEqual,
}

/// The operator that a comparator's text writes.
pub open spec fn comparison_operator_of(s: Seq<char>) -> Option<ComparisonOperator> {
    if s == "="@ {
        Some(ComparisonOperator::Equal)
    } else if s == "!="@ || s == "<>"@ {
        Some(ComparisonOperator::NotEqual)
    } else if s == ">"@ {
        Some(ComparisonOperator::GreaterThan)
    } else if s == "<"@ {
        Some(ComparisonOperator::LessThan)
    } else if s == ">="@ {
        Some(ComparisonOperator::GreaterThanOrEqual)
    } else if s == "<="@ {
        Some(ComparisonOperator::LessThanOrEqual)
    } else {
        None
    }
}

impl ComparisonOperator {
    /// Whether the comparison holds of a left side that stands to the right
    /// side as `order` says.
    pub open spec fn admits(self, order: Order) -> bool {
        match self {
            ComparisonOperator::Equal => order == Order::Equal,
            ComparisonOperator::NotEqual => order != Order::Equal,
            ComparisonOperator::GreaterThan => order == Order::Greater,
            ComparisonOperator::LessThan => order == Order::Less,
            ComparisonOperator::GreaterThanOrEqual => order != Order::Less,
            ComparisonOperator::LessThanOrEqual => order != Order::Greater,
        }
    }

    /// Whether the comparison holds of a left side that stands to the right
    /// side as `order` says.
    pub fn holds(self, order: Order) -> (r: bool)
        ensures
            r == self.admits(order),
    {
        match self {
            ComparisonOperator::Equal => order == Order::Equal,
            ComparisonOperator::NotEqual => order != Order::Equal,
            ComparisonOperator::GreaterThan => order == Order::Greater,
            ComparisonOperator::LessThan => order == Order::Less,
            ComparisonOperator::GreaterThanOrEqual => order != Order::Less,
            ComparisonOperator::LessThanOrEqual => order != Order::Greater,
        }
    }

    /// The operator that `s` writes: one of `=`, `!=`, `<>`, `>`, `<`, `>=`
    /// and `<=`.
    pub fn from_str(s: &str) -> (r: Option<Self>)
        ensures
            r == comparison_operator_of(s@),
    {
        if str_eq(s, "=") {
            Some(ComparisonOperator::Equal)
        } else if str_eq(s, "!=") || str_eq(s, "<>") {
            Some(ComparisonOperator::NotEqual)
        } else if str_eq(s, ">") {
            Some(ComparisonOperator::GreaterThan)
        } else if str_eq(s, "<") {
            Some(ComparisonOperator::LessThan)
        } else if str_eq(s, ">=") {
            Some(ComparisonOperator::GreaterThanOrEqual)
        } else if str_eq(s, "<=") {
            Some(ComparisonOperator::LessThanOrEqual)
        } else {
            None
        }
    }
}

/// How two conditions are joined.
#[derive(Clone, Copy, Debug, PartialEq, Eq, Structural)]
pub enum LogicalOperator {
    And,
    Or,
}

/// The operator that a connective in capital letters writes.
pub open spec fn logical_operator_of(s: Seq<char>) -> Option<LogicalOperator> {
    if s == "AND"@ {
        Some(LogicalOperator::And)
    } else if s == "OR"@ {
        Some(LogicalOperator::Or)
    } else {
        None
    }
}

/// What `str::to_uppercase` makes of a text.
pub uninterp spec fn uppercase_of(s: Seq<char>) -> Seq<char>;

/// `s` in upper case, as `str::to_uppercase` of the standard library gives it:
/// each character replaced by what Unicode maps it to, which may be more than
/// one character.
#[verifier::external_body]
fn to_uppercase(s: &str) -> (r: String)
    ensures
        r@ == uppercase_of(s@),
{
    s.to_uppercase()
}

impl LogicalOperator {
    /// What the operator makes of the truth of its two sides.
    pub open spec fn joins(self, left: bool, right: bool) -> bool {
        match self {
            LogicalOperator::And => left && right,
            LogicalOperator::Or => left || right,
        }
    }

    /// The operator that `s` writes, where `s` is in capital letters.
    pub fn from_uppercase(s: &str) -> (r: Option<Self>)
        ensures
            r == logical_operator_of(s@),
    {
        if str_eq(s, "AND") {
            Some(LogicalOperator::And)
        } else if str_eq(s, "OR") {
            Some(LogicalOperator::Or)
        } else {
            None
        }
    }

    /// The operator that `s` writes in letters of either case.
    pub fn from_str(s: &str) -> (r: Option<Self>)
        ensures
            r == logical_operator_of(uppercase_of(s@)),
    {
        let upper = to_uppercase(s);
        LogicalOperator::from_uppercase(upper.as_str())
    }
}

/// One comparison of a column with a literal. The literal is kept as the text
/// that the query wrote.
#[derive(Debug, PartialEq)]
pub struct Predicate {
    pub column: String,
    pub operator: ComparisonOperator,
    pub value: String,
}

/// What a `Predicate` is.
pub struct PredicateView {
    pub column: Seq<char>,
    pub operator: ComparisonOperator,
    pub value: Seq<char>,
}

impl View for Predicate {
    type V = PredicateView;

    open spec fn view(&self) -> PredicateView {
        PredicateView { column: self.column@, operator: self.operator, value: self.value@ }
    }
}

/// Two expressions joined by a logical operator.
#[derive(Debug, PartialEq)]
pub struct Condition {
    pub left: Box<LogicalExpression>,
    pub right: Box<LogicalExpression>,
    pub operator: LogicalOperator,
}

/// A filter: a tree with predicates at its leaves.
#[derive(Debug, PartialEq)]
pub enum LogicalExpression {
    Predicate(Predicate),
    Condition(Condition),
}

/// What a `LogicalExpression` is.
pub enum ExpressionView {
    Predicate(PredicateView),
    Condition(Box<ExpressionView>, LogicalOperator, Box<ExpressionView>),
}

/// What the expression `e` is.
pub open spec fn expression_view(e: LogicalExpression) -> ExpressionView
    decreases e,
{
    match e {
        LogicalExpression::Predicate(p) => ExpressionView::Predicate(p@),
        LogicalExpression::Condition(c) => ExpressionView::Condition(
            Box::new(expression_view(*c.left)),
            c.operator,
            Box::new(expression_view(*c.right)),
        ),
    }
}

impl View for LogicalExpression {
    type V = ExpressionView;

    open spec fn view(&self) -> ExpressionView {
        expression_view(*self)
    }
}

/// The columns that the predicates of `e` name, from left to right.
pub open spec fn filter_columns(e: ExpressionView) -> Seq<Seq<char>>
    decreases e,
{
    match e {
        ExpressionView::Predicate(p) => seq![p.column],
        ExpressionView::Condition(left, operator, right) => filter_columns(*left) + filter_columns(
            *right,
        ),
    }
}

/// The literals of the predicates of `e`, from left to right.
pub open spec fn filter_literals(e: ExpressionView) -> Seq<Seq<char>>
    decreases e,
{
    match e {
        ExpressionView::Predicate(p) => seq![p.value],
        ExpressionView::Condition(left, operator, right) => filter_literals(*left)
            + filter_literals(*right),
    }
}

/// A query: the columns to show, the file to read and the filter, if any.
#[derive(Debug, PartialEq)]
pub struct Query {
    pub columns: Vec<String>,
    pub file: FileInfo,
    pub conditions: Option<LogicalExpression>,
}

/// What a `Query` is.
pub struct QueryView {
    pub columns: Seq<Seq<char>>,
    pub file: FileInfoView,
    pub conditions: Option<ExpressionView>,
}

/// What a list of strings is.
pub open spec fn texts_view(v: Seq<String>) -> Seq<Seq<char>> {
    Seq::new(v.len(), |i: int| v[i]@)
}

/// Whether `name` is among `names`.
pub fn contains_text(names: &Vec<String>, name: &str) -> (r: bool)
    ensures
        r == texts_view(names@).contains(name@),
{
    let mut i: usize = 0;
    while i < names.len()
        invariant
            i <= names.len(),
            forall|k: int| 0 <= k < i ==> texts_view(names@)[k] != name@,
        decreases names.len() - i,
    {
        if str_eq(names[i].as_str(), name) {
            assert(texts_view(names@)[i as int] == name@);
            return true;
        }
        i += 1;
    }
    false
}

impl View for Query {
    type V = QueryView;

    open spec fn view(&self) -> QueryView {
        QueryView {
            columns: texts_view(self.columns@),
            file: self.file@,
            conditions: match self.conditions {
                Some(e) => Some(e@),
                None => None,
            },
        }
    }
}

/// Where the query's first clause ends: after `SELECT` and the spaces that
/// follow it, of which there is at least one.
pub open spec fn select_clause(s: Seq<char>) -> Option<int> {
    let after = "SELECT"@.len() as int;
    if keyword_at(s, 0, "SELECT"@) && spaces_end(s, after) > after {
        Some(spaces_end(s, after))
    } else {
        None
    }
}

/// Where the column that starts at `i` ends: a column is `*` or a run of
/// letters and digits.
pub open spec fn column_end(s: Seq<char>, i: int) -> Option<int> {
    if 0 <= i < s.len() && s[i] == '*' {
        Some(i + 1)
    } else if word_end(s, i) > i {
        Some(word_end(s, i))
    } else {
        None
    }
}

/// The list of columns that starts at `i`, and where it ends: one column, and
/// as many more as follow, each behind a comma. A comma that no column follows
/// is not part of the list.
pub open spec fn column_list(s: Seq<char>, i: int) -> Option<(Seq<Seq<char>>, int)>
    decreases s.len() - i,
{
    match column_end(s, i) {
        None => None,
        Some(j) => {
            let first = s.subrange(i, j);
            if j < s.len() && s[j] == ',' {
                match column_list(s, j + 1) {
                    Some((rest, k)) => Some((seq![first] + rest, k)),
                    None => Some((seq![first], j)),
                }
            } else {
                Some((seq![first], j))
            }
        },
    }
}

/// The name that a clause gives, as the positions of its start and its end:
/// spaces, the clause's word, spaces, and the name.
pub open spec fn named_clause(s: Seq<char>, i: int, word: Seq<char>) -> Option<(int, int)> {
    let a = spaces_end(s, i);
    let b = a + word.len();
    let c = spaces_end(s, b);
    if a > i && keyword_at(s, a, word) && c > b {
        Some((c, token_end(s, c)))
    } else {
        None
    }
}

/// Where the last part of a path starts: behind its last dot, or at its start
/// where it has none.
pub open spec fn extension_start(path: Seq<char>) -> int
    decreases path.len(),
{
    if path.len() == 0 {
        0
    } else if path.last() == '.' {
        path.len() as int
    } else {
        extension_start(path.drop_last())
    }
}

/// The last part of a path: what stands behind its last dot.
pub open spec fn extension_of(path: Seq<char>) -> Seq<char> {
    path.skip(extension_start(path))
}

/// Whether `path` is that of a file without sheets: its last part is `csv`,
/// in letters of either case.
pub open spec fn is_single_sheet_path(path: Seq<char>) -> bool {
    extension_of(path).len() == 3 && keyword_at(extension_of(path), 0, "CSV"@)
}

/// The file that the query reads, and where its clauses end. A file whose
/// path ends in `csv`, in letters of either case, has no sheets: a sheet named
/// for it fails the query.
pub open spec fn file_clause(s: Seq<char>, i: int) -> Result<(FileInfoView, int), QueryErrorView> {
    match named_clause(s, i, "FROM"@) {
        None => Err(QueryErrorView::SyntaxError),
        Some((path_start, path_end)) => {
            let path = s.subrange(path_start, path_end);
            match named_clause(s, path_end, "SHEET"@) {
                Some((sheet_start, sheet_end)) => if is_single_sheet_path(path) {
                    Err(QueryErrorView::UnexpectedSheetClause)
                } else {
                    let sheet = Some(s.subrange(sheet_start, sheet_end));
                    Ok((FileInfoView { path, sheet }, sheet_end))
                },
                None => Ok((FileInfoView { path, sheet: None }, path_end)),
            }
        },
    }
}

/// The operand that starts at `i`: where its text starts, where its text ends
/// and where the operand ends. An operand is a run of letters and digits, bare
/// or between two single or two double quotes.
pub open spec fn operand_at(s: Seq<char>, i: int) -> Option<(int, int, int)> {
    let bare = word_end(s, i);
    let inner = word_end(s, i + 1);
    if bare > i {
        Some((i, bare, bare))
    } else if 0 <= i < s.len() && (s[i] == '\'' || s[i] == '"') && inner > i + 1 && inner < s.len()
        && s[inner] == s[i] {
        Some((i + 1, inner, inner + 1))
    } else {
        None
    }
}

/// The comparator that starts at `i`, and where it ends: the longest that
/// stands there.
pub open spec fn comparator_at(s: Seq<char>, i: int) -> Option<(ComparisonOperator, int)> {
    if 0 <= i && i + 2 <= s.len() && comparison_operator_of(s.subrange(i, i + 2)) is Some {
        Some((comparison_operator_of(s.subrange(i, i + 2))->0, i + 2))
    } else if 0 <= i && i + 1 <= s.len() && comparison_operator_of(s.subrange(i, i + 1)) is Some {
        Some((comparison_operator_of(s.subrange(i, i + 1))->0, i + 1))
    } else {
        None
    }
}

/// The predicate that starts at `i`, and where it ends: spaces, an operand, a
/// comparator and an operand, with or without spaces around the comparator.
/// Of the two operands, the one that is among `columns` is the column and the
/// other the literal, whichever comes first; the comparator is kept as written.
/// Where both are among the columns the text is no predicate, and where
/// neither is, the first names an unknown column.
pub open spec fn predicate_at(s: Seq<char>, i: int, columns: Seq<Seq<char>>) -> Result<
    (PredicateView, int),
    QueryErrorView,
> {
    let a = spaces_end(s, i);
    if a > i && operand_at(s, a) is Some {
        let (first_start, first_end, b) = operand_at(s, a)->0;
        let c = spaces_end(s, b);
        if comparator_at(s, c) is Some {
            let (operator, d) = comparator_at(s, c)->0;
            let e = spaces_end(s, d);
            if operand_at(s, e) is Some {
                let (second_start, second_end, f) = operand_at(s, e)->0;
                let first = s.subrange(first_start, first_end);
                let second = s.subrange(second_start, second_end);
                if columns.contains(first) && columns.contains(second) {
                    Err(QueryErrorView::SyntaxError)
                } else if columns.contains(first) {
                    Ok((PredicateView { column: first, operator, value: second }, f))
                } else if columns.contains(second) {
                    Ok((PredicateView { column: second, operator, value: first }, f))
                } else {
                    Err(QueryErrorView::UnknownColumn(first))
                }
            } else {
                Err(QueryErrorView::SyntaxError)
            }
        } else {
            Err(QueryErrorView::SyntaxError)
        }
    } else {
        Err(QueryErrorView::SyntaxError)
    }
}

/// The connective that starts at `i`, and where it ends.
pub open spec fn connective_at(s: Seq<char>, i: int) -> Option<(LogicalOperator, int)> {
    if keyword_at(s, i, "OR"@) {
        Some((LogicalOperator::Or, i + "OR"@.len()))
    } else if keyword_at(s, i, "AND"@) {
        Some((LogicalOperator::And, i + "AND"@.len()))
    } else {
        None
    }
}

/// A predicate ends behind its start and within the text.
pub proof fn lemma_predicate_advances(s: Seq<char>, i: int, columns: Seq<Seq<char>>)
    requires
        0 <= i <= s.len(),
    ensures
        predicate_at(s, i, columns) matches Ok((p, k)) ==> i < k <= s.len(),
{
    let a = spaces_end(s, i);
    lemma_spaces_end_bounds(s, i);
    if a > i && operand_at(s, a) is Some {
        let (first_start, first_end, b) = operand_at(s, a)->0;
        lemma_word_end_bounds(s, a);
        if a + 1 <= s.len() {
            lemma_word_end_bounds(s, a + 1);
        }
        lemma_spaces_end_bounds(s, b);
        let c = spaces_end(s, b);
        if comparator_at(s, c) is Some {
            let (operator, d) = comparator_at(s, c)->0;
            lemma_spaces_end_bounds(s, d);
            let e = spaces_end(s, d);
            if operand_at(s, e) is Some {
                lemma_word_end_bounds(s, e);
                if e + 1 <= s.len() {
                    lemma_word_end_bounds(s, e + 1);
                }
            }
        }
    }
}

/// The filter that `left` starts and that goes on at `i`, and where it ends.
/// As long as spaces, a connective and a predicate follow, what has been read
/// so far becomes the left side of a new condition and the predicate its right
/// side. A connective that no predicate follows fails the query.
pub open spec fn conditions_from(
    s: Seq<char>,
    i: int,
    columns: Seq<Seq<char>>,
    left: ExpressionView,
) -> Result<(ExpressionView, int), QueryErrorView>
    decreases s.len() - i,
{
    let a = spaces_end(s, i);
    if 0 <= i <= s.len() && a > i && connective_at(s, a) is Some {
        let (operator, b) = connective_at(s, a)->0;
        match predicate_at(s, b, columns) {
            Ok((p, k)) => {
                proof {
                    lemma_predicate_advances(s, b, columns);
                }
                conditions_from(
                    s,
                    k,
                    columns,
                    ExpressionView::Condition(
                        Box::new(left),
                        operator,
                        Box::new(ExpressionView::Predicate(p)),
                    ),
                )
            },
            Err(e) => Err(e),
        }
    } else {
        Ok((left, i))
    }
}

/// The filter that starts at `i`, and where it ends: one predicate, and as
/// many more as follow, each behind a connective.
pub open spec fn condition_list(s: Seq<char>, i: int, columns: Seq<Seq<char>>) -> Result<
    (ExpressionView, int),
    QueryErrorView,
> {
    match predicate_at(s, i, columns) {
        Ok((p, k)) => conditions_from(s, k, columns, ExpressionView::Predicate(p)),
        Err(e) => Err(e),
    }
}

/// The filter of the query whose earlier clauses end at `i`: none where no
/// `WHERE` follows the spaces there.
pub open spec fn where_clause(s: Seq<char>, i: int, columns: Seq<Seq<char>>) -> Result<
    Option<ExpressionView>,
    QueryErrorView,
> {
    let a = spaces_end(s, i);
    if a > i && keyword_at(s, a, "WHERE"@) {
        match condition_list(s, a + "WHERE"@.len(), columns) {
            Ok((e, k)) => Ok(Some(e)),
            Err(e) => Err(e),
        }
    } else {
        Ok(None)
    }
}

/// The query that the text `s` writes. What follows the last clause that can
/// be read is not looked at.
pub open spec fn query_of(s: Seq<char>) -> Result<QueryView, QueryErrorView> {
    match select_clause(s) {
        None => Err(QueryErrorView::SyntaxError),
        Some(i) => match column_list(s, i) {
            None => Err(QueryErrorView::SyntaxError),
            Some((columns, j)) => match file_clause(s, j) {
                Err(e) => Err(e),
                Ok((file, k)) => match where_clause(s, k, columns) {
                    Err(e) => Err(e),
                    Ok(conditions) => Ok(QueryView { columns, file, conditions }),
                },
            },
        },
    }
}

/// Reads the query's first clause.
pub fn parse_select(s: &Vec<char>) -> (r: Option<usize>)
    ensures
        match r {
            Some(i) => select_clause(s@) == Some(i as int) && i <= s.len(),
            None => select_clause(s@) is None,
        },
{
    if !is_keyword_at(s, 0, "SELECT") {
        return None;
    }
    let after = "SELECT".unicode_len();
    let i = skip_spaces(s, after);
    if i > after {
        Some(i)
    } else {
        None
    }
}

/// Where the column that starts at `i` ends.
fn column_limit(s: &Vec<char>, i: usize) -> (r: Option<usize>)
    requires
        i <= s.len(),
    ensures
        match r {
            Some(j) => column_end(s@, i as int) == Some(j as int) && i < j <= s.len(),
            None => column_end(s@, i as int) is None,
        },
{
    if i < s.len() && s[i] == '*' {
        return Some(i + 1);
    }
    let j = skip_word(s, i);
    if j > i {
        Some(j)
    } else {
        None
    }
}

/// Reads the list of columns that starts at `i`.
pub fn parse_columns(text: &str, s: &Vec<char>, i: usize) -> (r: Option<(Vec<String>, usize)>)
    requires
        s@ == text@,
        i <= s.len(),
    ensures
        match r {
            Some((columns, k)) => column_list(s@, i as int) == Some(
                (texts_view(columns@), k as int),
            ) && k <= s.len(),
            None => column_list(s@, i as int) is None,
        },
{
    let first_end = match column_limit(s, i) {
        Some(j) => j,
        None => {
            return None;
        },
    };
    let mut columns: Vec<String> = Vec::new();
    columns.push(substring(text, i, first_end));
    let mut start: usize = i;
    let mut end: usize = first_end;
    assert(texts_view(columns@).drop_last() + seq![s@.subrange(start as int, end as int)]
        =~= texts_view(columns@));
    loop
        invariant
            s@ == text@,
            i <= start < end <= s.len(),
            columns.len() > 0,
            column_end(s@, start as int) == Some(end as int),
            texts_view(columns@).last() == s@.subrange(start as int, end as int),
            column_list(s@, i as int) == match column_list(s@, start as int) {
                Some((rest, k)) => Some((texts_view(columns@).drop_last() + rest, k)),
                None => None,
            },
        ensures
            column_list(s@, i as int) == Some((texts_view(columns@), end as int)),
            end <= s.len(),
        decreases s.len() - end,
    {
        if !(end < s.len() && s[end] == ',') {
            assert(texts_view(columns@).drop_last() + seq![s@.subrange(start as int, end as int)]
                =~= texts_view(columns@));
            break ;
        }
        match column_limit(s, end + 1) {
            None => {
                assert(texts_view(columns@).drop_last() + seq![
                    s@.subrange(start as int, end as int),
                ] =~= texts_view(columns@));
                break ;
            },
            Some(j) => {
                let ghost before = texts_view(columns@);
                let ghost first = s@.subrange(start as int, end as int);
                columns.push(substring(text, end + 1, j));
                proof {
                    let after = texts_view(columns@);
                    assert(after.drop_last() =~= before);
                    assert(before =~= before.drop_last() + seq![first]);
                    match column_list(s@, end + 1) {
                        Some((rest, k)) => {
                            assert(before.drop_last() + (seq![first] + rest) =~= after.drop_last()
                                + rest);
                        },
                        None => {},
                    }
                }
                start = end + 1;
                end = j;
            },
        }
    }
    Some((columns, end))
}

/// Reads the clause with the word `word` that starts at `i`: gives the start
/// and the end of the name in it.
pub fn parse_clause(s: &Vec<char>, i: usize, word: &str) -> (r: Option<(usize, usize)>)
    requires
        i <= s.len(),
    ensures
        match r {
            Some((from, to)) => named_clause(s@, i as int, word@) == Some((from as int, to as int))
                && i < from <= to <= s.len(),
            None => named_clause(s@, i as int, word@) is None,
        },
{
    let a = skip_spaces(s, i);
    if a == i || !is_keyword_at(s, a, word) {
        return None;
    }
    let b = a + word.unicode_len();
    let c = skip_spaces(s, b);
    if c == b {
        return None;
    }
    Some((c, parse_until_next_keyword(s, c)))
}

/// Reads the clause that names a sheet.
pub fn parse_sheet(s: &Vec<char>, i: usize) -> (r: Option<(usize, usize)>)
    requires
        i <= s.len(),
    ensures
        match r {
            Some((from, to)) => named_clause(s@, i as int, "SHEET"@) == Some(
                (from as int, to as int),
            ) && i < from <= to <= s.len(),
            None => named_clause(s@, i as int, "SHEET"@) is None,
        },
{
    parse_clause(s, i, "SHEET")
}

/// The last part of `path`: what stands behind its last dot, and all of it
/// where it has no dot.
pub fn extension(path: &str) -> (r: String)
    ensures
        r@ == extension_of(path@),
{
    let s = chars_of(path);
    let mut i: usize = s.len();
    assert(s@.take(s@.len() as int) =~= s@);
    while i > 0 && s[i - 1] != '.'
        invariant
            i <= s.len(),
            s@ == path@,
            extension_start(s@) == extension_start(s@.take(i as int)),
        decreases i,
    {
        assert(s@.take(i as int).drop_last() =~= s@.take(i - 1));
        i -= 1;
    }
    proof {
        if i > 0 {
            assert(s@.take(i as int).last() == '.');
        }
        assert(s@.skip(i as int) =~= s@.subrange(i as int, s@.len() as int));
    }
    substring(path, i, s.len())
}

/// Whether `path` is that of a file without sheets.
pub fn single_sheet_path(path: &str) -> (r: bool)
    ensures
        r == is_single_sheet_path(path@),
{
    let last = extension(path);
    let chars = chars_of(last.as_str());
    chars.len() == 3 && is_keyword_at(&chars, 0, "CSV")
}

/// Reads the clauses that name the file and, where it has sheets, the sheet.
pub fn parse_from(text: &str, s: &Vec<char>, i: usize) -> (r: Result<(FileInfo, usize), QueryError>)
    requires
        s@ == text@,
        i <= s.len(),
    ensures
        match r {
            Ok((file, k)) => file_clause(s@, i as int) == Ok::<(FileInfoView, int), QueryErrorView>(
                (file@, k as int),
            ) && k <= s.len(),
            Err(e) => file_clause(s@, i as int) == Err::<(FileInfoView, int), QueryErrorView>(e@),
        },
{
    let (path_start, path_end) = match parse_clause(s, i, "FROM") {
        Some(found) => found,
        None => {
            return Err(QueryError::SyntaxError);
        },
    };
    let path = substring(text, path_start, path_end);
    match parse_sheet(s, path_end) {
        Some((sheet_start, sheet_end)) => {
            if single_sheet_path(path.as_str()) {
                Err(QueryError::UnexpectedSheetClause)
            } else {
                let sheet = Some(substring(text, sheet_start, sheet_end));
                Ok((FileInfo { path, sheet }, sheet_end))
            }
        },
        None => Ok((FileInfo { path, sheet: None }, path_end)),
    }
}

/// Reads the operand that starts at `i`: gives the start and the end of its
/// text, and its own end.
pub fn parse_string_value(s: &Vec<char>, i: usize) -> (r: Option<(usize, usize, usize)>)
    requires
        i <= s.len(),
    ensures
        match r {
            Some((from, to, next)) => operand_at(s@, i as int) == Some(
                (from as int, to as int, next as int),
            ) && i <= from < to <= next <= s.len() && i < next,
            None => operand_at(s@, i as int) is None,
        },
{
    let bare = skip_word(s, i);
    if bare > i {
        return Some((i, bare, bare));
    }
    if i < s.len() && (s[i] == '\'' || s[i] == '"') {
        let inner = skip_word(s, i + 1);
        if inner > i + 1 && inner < s.len() && s[inner] == s[i] {
            return Some((i + 1, inner, inner + 1));
        }
    }
    None
}

/// Reads the comparator that starts at `i`.
pub fn parse_comparator(text: &str, s: &Vec<char>, i: usize) -> (r: Option<
    (ComparisonOperator, usize),
>)
    requires
        s@ == text@,
        i <= s.len(),
    ensures
        match r {
            Some((operator, next)) => comparator_at(s@, i as int) == Some((operator, next as int))
                && i < next <= s.len(),
            None => comparator_at(s@, i as int) is None,
        },
{
    if s.len() - i >= 2 {
        let two = substring(text, i, i + 2);
        match ComparisonOperator::from_str(two.as_str()) {
            Some(operator) => {
                return Some((operator, i + 2));
            },
            None => {},
        }
    }
    if s.len() - i >= 1 {
        let one = substring(text, i, i + 1);
        match ComparisonOperator::from_str(one.as_str()) {
            Some(operator) => {
                return Some((operator, i + 1));
            },
            None => {},
        }
    }
    None
}

/// Reads the predicate that starts at `i` and settles which of its operands is
/// the column.
pub fn parse_predicate(columns: &Vec<String>, text: &str, s: &Vec<char>, i: usize) -> (r: Result<
    (Predicate, usize),
    QueryError,
>)
    requires
        s@ == text@,
        i <= s.len(),
    ensures
        match r {
            Ok((p, k)) => predicate_at(s@, i as int, texts_view(columns@)) == Ok::<
                (PredicateView, int),
                QueryErrorView,
            >((p@, k as int)) && i < k <= s.len(),
            Err(e) => predicate_at(s@, i as int, texts_view(columns@)) == Err::<
                (PredicateView, int),
                QueryErrorView,
            >(e@),
        },
{
    let a = skip_spaces(s, i);
    if a == i {
        return Err(QueryError::SyntaxError);
    }
    let (first_start, first_end, b) = match parse_string_value(s, a) {
        Some(found) => found,
        None => {
            return Err(QueryError::SyntaxError);
        },
    };
    let c = skip_spaces(s, b);
    let (operator, d) = match parse_comparator(text, s, c) {
        Some(found) => found,
        None => {
            return Err(QueryError::SyntaxError);
        },
    };
    let e = skip_spaces(s, d);
    let (second_start, second_end, f) = match parse_string_value(s, e) {
        Some(found) => found,
        None => {
            return Err(QueryError::SyntaxError);
        },
    };
    let first = substring(text, first_start, first_end);
    let second = substring(text, second_start, second_end);
    let first_known = contains_text(columns, first.as_str());
    let second_known = contains_text(columns, second.as_str());
    if first_known && second_known {
        Err(QueryError::SyntaxError)
    } else if first_known {
        Ok((Predicate { column: first, operator, value: second }, f))
    } else if second_known {
        Ok((Predicate { column: second, operator, value: first }, f))
    } else {
        Err(QueryError::UnknownColumn(first))
    }
}

/// Reads the connective that starts at `i`.
pub fn parse_logical_operator(s: &Vec<char>, i: usize) -> (r: Option<(LogicalOperator, usize)>)
    requires
        i <= s.len(),
    ensures
        match r {
            Some((operator, next)) => connective_at(s@, i as int) == Some((operator, next as int))
                && i <= next <= s.len(),
            None => connective_at(s@, i as int) is None,
        },
{
    if is_keyword_at(s, i, "OR") {
        Some((LogicalOperator::Or, i + "OR".unicode_len()))
    } else if is_keyword_at(s, i, "AND") {
        Some((LogicalOperator::And, i + "AND".unicode_len()))
    } else {
        None
    }
}

/// Reads the filter that starts at `i`.
pub fn parse_conditions(text: &str, s: &Vec<char>, i: usize, columns: &Vec<String>) -> (r: Result<
    (LogicalExpression, usize),
    QueryError,
>)
    requires
        s@ == text@,
        i <= s.len(),
    ensures
        match r {
            Ok((e, k)) => condition_list(s@, i as int, texts_view(columns@)) == Ok::<
                (ExpressionView, int),
                QueryErrorView,
            >((e@, k as int)) && k <= s.len(),
            Err(e) => condition_list(s@, i as int, texts_view(columns@)) == Err::<
                (ExpressionView, int),
                QueryErrorView,
            >(e@),
        },
{
    let (first, first_end) = match parse_predicate(columns, text, s, i) {
        Ok(found) => found,
        Err(e) => {
            return Err(e);
        },
    };
    let mut left = LogicalExpression::Predicate(first);
    let mut j: usize = first_end;
    let ghost cols = texts_view(columns@);
    loop
        invariant
            s@ == text@,
            cols == texts_view(columns@),
            j <= s.len(),
            condition_list(s@, i as int, cols) == conditions_from(s@, j as int, cols, left@),
        ensures
            condition_list(s@, i as int, cols) == Ok::<(ExpressionView, int), QueryErrorView>(
                (left@, j as int),
            ),
            j <= s.len(),
        decreases s.len() - j,
    {
        let a = skip_spaces(s, j);
        if a == j {
            break ;
        }
        let (operator, b) = match parse_logical_operator(s, a) {
            Some(found) => found,
            None => {
                break ;
            },
        };
        match parse_predicate(columns, text, s, b) {
            Err(e) => {
                return Err(e);
            },
            Ok((p, k)) => {
                let ghost before = left@;
                let ghost right = p@;
                left = LogicalExpression::Condition(
                    Condition {
                        left: Box::new(left),
                        right: Box::new(LogicalExpression::Predicate(p)),
                        operator,
                    },
                );
                assert(left@ == ExpressionView::Condition(
                    Box::new(before),
                    operator,
                    Box::new(ExpressionView::Predicate(right)),
                )) by {
                    reveal_with_fuel(expression_view, 2);
                }
                j = k;
            },
        }
    }
    Ok((left, j))
}

/// Reads the filter of the query whose earlier clauses end at `i`.
pub fn parse_where(text: &str, s: &Vec<char>, i: usize, columns: &Vec<String>) -> (r: Result<
    Option<LogicalExpression>,
    QueryError,
>)
    requires
        s@ == text@,
        i <= s.len(),
    ensures
        match r {
            Ok(Some(e)) => where_clause(s@, i as int, texts_view(columns@)) == Ok::<
                Option<ExpressionView>,
                QueryErrorView,
            >(Some(e@)),
            Ok(None) => where_clause(s@, i as int, texts_view(columns@)) == Ok::<
                Option<ExpressionView>,
                QueryErrorView,
            >(None),
            Err(e) => where_clause(s@, i as int, texts_view(columns@)) == Err::<
                Option<ExpressionView>,
                QueryErrorView,
            >(e@),
        },
{
    let a = skip_spaces(s, i);
    if a == i || !is_keyword_at(s, a, "WHERE") {
        return Ok(None);
    }
    match parse_conditions(text, s, a + "WHERE".unicode_len(), columns) {
        Ok((e, _)) => Ok(Some(e)),
        Err(e) => Err(e),
    }
}

/// Reads a query. The text is read from its start; what follows the last
/// clause that can be read is not looked at.
pub fn parse_query(input: &str) -> (r: Result<Query, QueryError>)
    ensures
        match r {
            Ok(q) => query_of(input@) == Ok::<QueryView, QueryErrorView>(q@),
            Err(e) => query_of(input@) == Err::<QueryView, QueryErrorView>(e@),
        },
{
    let s = chars_of(input);
    let i = match parse_select(&s) {
        Some(i) => i,
        None => {
            return Err(QueryError::SyntaxError);
        },
    };
    let (columns, j) = match parse_columns(input, &s, i) {
        Some(found) => found,
        None => {
            return Err(QueryError::SyntaxError);
        },
    };
    let (file, k) = match parse_from(input, &s, j) {
        Ok(found) => found,
        Err(e) => {
            return Err(e);
        },
    };
    match parse_where(input, &s, k, &columns) {
        Ok(conditions) => Ok(Query { columns, file, conditions }),
        Err(e) => Err(e),
    }
}

/// A filter that is read on from `left` names no column beyond those of
/// `left` and of `columns`.
pub proof fn lemma_conditions_name_columns(
    s: Seq<char>,
    i: int,
    columns: Seq<Seq<char>>,
    left: ExpressionView,
)
    requires
        forall|n: int|
            0 <= n < filter_columns(left).len() ==> columns.contains(
                #[trigger] filter_columns(left)[n],
            ),
    ensures
        conditions_from(s, i, columns, left) matches Ok((e, k)) ==> forall|n: int|
            0 <= n < filter_columns(e).len() ==> columns.contains(#[trigger] filter_columns(e)[n]),
    decreases s.len() - i,
{
    let a = spaces_end(s, i);
    if 0 <= i <= s.len() && a > i && connective_at(s, a) is Some {
        let (operator, b) = connective_at(s, a)->0;
        match predicate_at(s, b, columns) {
            Ok((p, k)) => {
                lemma_predicate_advances(s, b, columns);
                lemma_spaces_end_bounds(s, i);
                let joined = ExpressionView::Condition(
                    Box::new(left),
                    operator,
                    Box::new(ExpressionView::Predicate(p)),
                );
                assert(filter_columns(joined) == filter_columns(left) + seq![p.column]) by {
                    reveal_with_fuel(filter_columns, 2);
                }
                let names = filter_columns(joined);
                assert forall|n: int| 0 <= n < names.len() implies columns.contains(
                    #[trigger] names[n],
                ) by {
                    if n < filter_columns(left).len() {
                        assert(names[n] == filter_columns(left)[n]);
                    }
                }
                lemma_conditions_name_columns(s, k, columns, joined);
            },
            Err(e) => {},
        }
    }
}

/// Every column that the filter of a query names is among the columns that
/// the query shows: a query that was read filters on no other.
pub proof fn lemma_filter_names_shown_columns(s: Seq<char>)
    ensures
        query_of(s) matches Ok(q) ==> (q.conditions matches Some(e) ==> forall|n: int|
            0 <= n < filter_columns(e).len() ==> q.columns.contains(
                #[trigger] filter_columns(e)[n],
            )),
{
    match query_of(s) {
        Ok(q) => {
            let i = select_clause(s)->0;
            let (columns, j) = column_list(s, i)->0;
            let (file, k) = file_clause(s, j)->Ok_0;
            let a = spaces_end(s, k);
            if a > k && keyword_at(s, a, "WHERE"@) {
                let start = a + "WHERE"@.len();
                match predicate_at(s, start, columns) {
                    Ok((p, next)) => {
                        let first = ExpressionView::Predicate(p);
                        assert(filter_columns(first)[0] == p.column);
                        lemma_conditions_name_columns(s, next, columns, first);
                    },
                    Err(e) => {},
                }
            }
        },
        Err(e) => {},
    }
}

/// Reading a filter on fails in no other way than reading a predicate does.
proof fn lemma_conditions_errors(
    s: Seq<char>,
    i: int,
    columns: Seq<Seq<char>>,
    left: ExpressionView,
)
    ensures
        conditions_from(s, i, columns, left) matches Err(e) ==> e is SyntaxError
            || e is UnknownColumn,
    decreases s.len() - i,
{
    let a = spaces_end(s, i);
    if 0 <= i <= s.len() && a > i && connective_at(s, a) is Some {
        let (operator, b) = connective_at(s, a)->0;
        match predicate_at(s, b, columns) {
            Ok((p, k)) => {
                lemma_predicate_advances(s, b, columns);
                lemma_spaces_end_bounds(s, i);
                lemma_conditions_errors(
                    s,
                    k,
                    columns,
                    ExpressionView::Condition(
                        Box::new(left),
                        operator,
                        Box::new(ExpressionView::Predicate(p)),
                    ),
                );
            },
            Err(e) => {},
        }
    }
}

/// A text that is not read as a query fails in one of three ways: it is no
/// query, it filters on an unknown column, or it names a sheet for a file
/// without sheets.
pub proof fn lemma_query_errors(s: Seq<char>)
    ensures
        query_of(s) matches Err(e) ==> e is SyntaxError || e is UnknownColumn
            || e is UnexpectedSheetClause,
{
    if select_clause(s) is Some {
        let i = select_clause(s)->0;
        if column_list(s, i) is Some {
            let (columns, j) = column_list(s, i)->0;
            if file_clause(s, j) is Ok {
                let (file, k) = file_clause(s, j)->Ok_0;
                let a = spaces_end(s, k);
                if a > k && keyword_at(s, a, "WHERE"@) {
                    let start = a + "WHERE"@.len();
                    match predicate_at(s, start, columns) {
                        Ok((p, next)) => {
                            lemma_conditions_errors(
                                s,
                                next,
                                columns,
                                ExpressionView::Predicate(p),
                            );
                        },
                        Err(e) => {},
                    }
                }
            }
        }
    }
}

/// Every column of a list of columns that was read is `*` or a run of letters
/// and digits, and there is at least one.
pub proof fn lemma_columns_are_names(s: Seq<char>, i: int)
    requires
        0 <= i <= s.len(),
    ensures
        column_list(s, i) matches Some((columns, k)) ==> columns.len() > 0 && forall|n: int|
            0 <= n < columns.len() ==> is_column_name(#[trigger] columns[n]),
    decreases s.len() - i,
{
    reveal_strlit("*");
    match column_end(s, i) {
        None => {},
        Some(j) => {
            let first = s.subrange(i, j);
            lemma_word_end_bounds(s, i);
            if s[i] == '*' {
                assert(first =~= "*"@);
            } else {
                lemma_word_is_alphanumeric(s, i);
            }
            if j < s.len() && s[j] == ',' {
                lemma_columns_are_names(s, j + 1);
                match column_list(s, j + 1) {
                    Some((rest, k)) => {
                        let all = seq![first] + rest;
                        assert forall|n: int| 0 <= n < all.len() implies is_column_name(
                            #[trigger] all[n],
                        ) by {
                            if n > 0 {
                                assert(all[n] == rest[n - 1]);
                            }
                        }
                    },
                    None => {},
                }
            }
        },
    }
}

/// What a column of a query can be: `*`, or a run of letters and digits that
/// is not empty.
pub open spec fn is_column_name(name: Seq<char>) -> bool {
    name == "*"@ || (name.len() > 0 && forall|k: int|
        0 <= k < name.len() ==> is_alphanumeric(#[trigger] name[k]))
}

/// A run of letters and digits holds letters and digits only.
proof fn lemma_word_is_alphanumeric(s: Seq<char>, i: int)
    requires
        0 <= i <= s.len(),
    ensures
        forall|k: int| i <= k < word_end(s, i) ==> is_alphanumeric(#[trigger] s[k]),
    decreases s.len() - i,
{
    if i < s.len() && is_alphanumeric(s[i]) {
        lemma_word_is_alphanumeric(s, i + 1);
    }
}

} // verus!
