//! The line format `<digits><separator><name>` and the reading of whole card
//! lists, with every error located by line and column.
use crate::{CardEntry, GetCardInfo};
use vstd::prelude::*;
use vstd::string::{StrSliceExecFns, StringExecFns};

verus! {

/// What went wrong on a line or in a source.
pub enum Error {
    UnexpectedChar { obtained: char, expected: Vec<String> },
    AmountIsZero { card_name: String },
    NameIsEmpty,
    NotANumber { string: String, reason: NumberIssue },
    CantOpenFile { path: String, message: String },
    NameMultipleTimes { name: String },
    CouldntReadLine { path: String, line: usize, message: String },
}

/// Why a numeral does not read as an amount.
#[derive(Clone, Copy, Debug, PartialEq, Eq)]
pub enum NumberIssue {
    Empty,
    InvalidDigit,
    TooLarge,
}

/// Where an error lies; each coordinate is 1-based and may be unknown.
pub struct LinePosition {
    pub line: Option<usize>,
    pub column: Option<usize>,
}

impl LinePosition {
    /// A position with neither line nor column known.
    pub fn void() -> (r: Self)
        ensures
            r.line.is_none(),
            r.column.is_none(),
    {
        LinePosition { line: None, column: None }
    }
}

/// The decimal digits of a number, without sign or padding.
pub open spec fn decimal_text(n: nat) -> Seq<char>
    decreases n,
{
    let digit = seq!['0', '1', '2', '3', '4', '5', '6', '7', '8', '9'][(n % 10) as int];
    if n < 10 {
        seq![digit]
    } else {
        decimal_text(n / 10).push(digit)
    }
}

/// Relies on the `Display` of `usize` (through `to_string`): its decimal
/// digits, with no sign and no padding.
#[verifier::external_body]
fn decimal_of(n: usize) -> (r: String)
    ensures
        r@ == decimal_text(n as nat),
{
    n.to_string()
}

/// How a position reads in a message; the wording depends on which
/// coordinates are known.
pub open spec fn position_text(p: LinePosition) -> Seq<char> {
    match p.line {
        None => match p.column {
            None => "Error at unknown position"@,
            Some(c) => "Error at unknown line, column "@ + decimal_text(c as nat),
        },
        Some(l) => match p.column {
            None => "Error at line "@ + decimal_text(l as nat),
            Some(c) => "Error at line "@ + decimal_text(l as nat) + ", column "@ + decimal_text(
                c as nat,
            ),
        },
    }
}

impl LinePosition {
    /// The position as the start of a message.
    pub fn describe(&self) -> (r: String)
        ensures
            r@ == position_text(*self),
    {
        match self.line {
            None => match self.column {
                None => String::from_str("Error at unknown position"),
                Some(c) => String::from_str("Error at unknown line, column ").concat(
                    decimal_of(c).as_str(),
                ),
            },
            Some(l) => match self.column {
                None => String::from_str("Error at line ").concat(decimal_of(l).as_str()),
                Some(c) => String::from_str("Error at line ").concat(decimal_of(l).as_str()).concat(
                    ", column ",
                ).concat(decimal_of(c).as_str()),
            },
        }
    }
}

/// An error and where it was found.
pub struct ParseError {
    pub position: LinePosition,
    pub error: Error,
}

impl ParseError {
    /// The same error, now placed on the given line.
    pub fn at_line(self, line: usize) -> (r: Self)
        ensures
            r.position.line == Some(line),
            r.position.column == self.position.column,
            r.error == self.error,
    {
        ParseError { position: LinePosition { line: Some(line), column: self.position.column }, error: self.error }
    }
}

pub open spec fn is_digit(c: char) -> bool {
    '0' <= c <= '9'
}

pub open spec fn is_blank_char(c: char) -> bool {
    c == ' ' || c == '\t'
}

pub open spec fn is_ex(c: char) -> bool {
    c == 'x' || c == 'X'
}

/// How the scan of a line ends: at an unexpected character (1-based column),
/// or with the numeral `s[0..digits_end)` and the name starting at `name_start`.
pub enum Scan {
    Unexpected { column: nat, obtained: char, had_digit: bool },
    Split { digits_end: nat, name_start: nat },
}

/// The separator state: blanks are skipped, one `x` is consumed, anything
/// else begins the name.
pub open spec fn skip_separator(s: Seq<char>, j: nat) -> nat
    decreases s.len() - j,
{
    if j >= s.len() {
        s.len()
    } else if is_blank_char(s[j as int]) {
        skip_separator(s, j + 1)
    } else if is_ex(s[j as int]) {
        j + 1
    } else {
        j
    }
}

/// The numbering state, from index `i` on.
pub open spec fn scan_number(s: Seq<char>, i: nat) -> Scan
    decreases s.len() - i,
{
    if i >= s.len() {
        Scan::Split { digits_end: s.len(), name_start: s.len() }
    } else if is_digit(s[i as int]) {
        scan_number(s, i + 1)
    } else if is_blank_char(s[i as int]) {
        Scan::Split { digits_end: i, name_start: skip_separator(s, i + 1) }
    } else if is_ex(s[i as int]) {
        Scan::Split { digits_end: i, name_start: i + 1 }
    } else {
        Scan::Unexpected { column: i + 1, obtained: s[i as int], had_digit: i > 0 }
    }
}

/// The decimal value of a numeral, saturated just above `i64::MAX`.
pub open spec fn capped_decimal(d: Seq<char>) -> int
    decreases d.len(),
{
    if d.len() == 0 {
        0
    } else {
        let v = capped_decimal(d.drop_last()) * 10 + (d.last() as int - '0' as int);
        if v > i64::MAX {
            i64::MAX + 1
        } else {
            v
        }
    }
}

/// What keeps a numeral from reading as an `i64`, if anything.
pub open spec fn numeral_issue(d: Seq<char>) -> Option<NumberIssue> {
    if d.len() == 0 {
        Some(NumberIssue::Empty)
    } else if exists|k: int| 0 <= k < d.len() && !is_digit(#[trigger] d[k]) {
        Some(NumberIssue::InvalidDigit)
    } else if capped_decimal(d) > i64::MAX {
        Some(NumberIssue::TooLarge)
    } else {
        None
    }
}

/// A numeral that reads as an `i64`: non-empty, digits only, not too large.
pub open spec fn numeral_fits(d: Seq<char>) -> bool {
    numeral_issue(d).is_none()
}

/// The characters that `char::is_whitespace` accepts: those with the
/// Unicode White_Space property.
pub open spec fn is_white(c: char) -> bool {
    ||| '\t' <= c <= '\r'
    ||| c == ' '
    ||| c == '\u{85}'
    ||| c == '\u{A0}'
    ||| c == '\u{1680}'
    ||| '\u{2000}' <= c <= '\u{200A}'
    ||| c == '\u{2028}'
    ||| c == '\u{2029}'
    ||| c == '\u{202F}'
    ||| c == '\u{205F}'
    ||| c == '\u{3000}'
}

pub open spec fn trim_front(s: Seq<char>) -> Seq<char>
    decreases s.len(),
{
    if s.len() > 0 && is_white(s[0]) {
        trim_front(s.drop_first())
    } else {
        s
    }
}

pub open spec fn trim_back(s: Seq<char>) -> Seq<char>
    decreases s.len(),
{
    if s.len() > 0 && is_white(s.last()) {
        trim_back(s.drop_last())
    } else {
        s
    }
}

/// The text without leading and trailing whitespace.
pub open spec fn trimmed(s: Seq<char>) -> Seq<char> {
    trim_back(trim_front(s))
}

/// Relies on str::trim: it removes the leading and trailing characters for
/// which `char::is_whitespace` holds.
#[verifier::external_body]
fn trim_text(s: &str) -> (r: &str)
    ensures
        r@ == trimmed(s@),
{
    s.trim()
}

/// The categories accepted where an unexpected character stood.
pub open spec fn expected_view(had_digit: bool) -> Seq<Seq<char>> {
    if had_digit {
        seq!["a digit"@, "a number separator (space, tab or `x`)"@, "a card name"@]
    } else {
        seq!["a digit"@]
    }
}

pub open spec fn views_of(v: Seq<String>) -> Seq<Seq<char>> {
    v.map_values(|x: String| x@)
}

/// The verdict on one line, up to the card source.
pub enum LineOutcome {
    Unexpected { column: nat, obtained: char, had_digit: bool },
    NotANumber { digits: Seq<char>, reason: NumberIssue },
    Zero { name: Seq<char> },
    EmptyName,
    Named { amount: int, name: Seq<char> },
}

/// The verdict on a numeral and a name already trimmed.
pub open spec fn parts_outcome(digits: Seq<char>, name: Seq<char>) -> LineOutcome {
    if let Some(reason) = numeral_issue(digits) {
        LineOutcome::NotANumber { digits, reason }
    } else if capped_decimal(digits) == 0 {
        LineOutcome::Zero { name }
    } else if name.len() == 0 {
        LineOutcome::EmptyName
    } else {
        LineOutcome::Named { amount: capped_decimal(digits), name }
    }
}

/// The verdict on a line of text.
pub open spec fn line_outcome(s: Seq<char>) -> LineOutcome {
    match scan_number(s, 0) {
        Scan::Unexpected { column, obtained, had_digit } => LineOutcome::Unexpected {
            column,
            obtained,
            had_digit,
        },
        Scan::Split { digits_end, name_start } => parts_outcome(
            s.subrange(0, digits_end as int),
            trimmed(s.subrange(name_start as int, s.len() as int)),
        ),
    }
}

/// `e` is the error that the verdict `o` calls for, with no line yet.
pub open spec fn reports(e: ParseError, o: LineOutcome) -> bool {
    &&& e.position.line.is_none()
    &&& reports_on(e, o)
}

/// `e` holds the error and column that the verdict `o` calls for.
pub open spec fn reports_on(e: ParseError, o: LineOutcome) -> bool {
    match o {
        LineOutcome::Unexpected { column, obtained, had_digit } => {
            &&& e.position.column matches Some(c) && c == column
            &&& e.error matches Error::UnexpectedChar { obtained: got, expected } && got
                == obtained && views_of(expected@) == expected_view(had_digit)
        },
        LineOutcome::NotANumber { digits, reason } => {
            &&& e.position.column.is_none()
            &&& e.error matches Error::NotANumber { string, reason: why } && string@ == digits
                && why == reason
        },
        LineOutcome::Zero { name } => {
            &&& e.position.column.is_none()
            &&& e.error matches Error::AmountIsZero { card_name } && card_name@ == name
        },
        LineOutcome::EmptyName => {
            &&& e.position.column.is_none()
            &&& e.error matches Error::NameIsEmpty
        },
        LineOutcome::Named { .. } => false,
    }
}

proof fn lemma_skip_bounds(s: Seq<char>, j: nat)
    requires
        j <= s.len(),
    ensures
        j <= skip_separator(s, j) <= s.len(),
    decreases s.len() - j,
{
    if j < s.len() && is_blank_char(s[j as int]) {
        lemma_skip_bounds(s, j + 1);
    }
}

/// Where the scan splits a line, the numeral ends before the name begins.
proof fn lemma_scan_bounds(s: Seq<char>, i: nat)
    requires
        i <= s.len(),
    ensures
        scan_number(s, i) matches Scan::Split { digits_end, name_start } ==> digits_end
            <= name_start <= s.len(),
    decreases s.len() - i,
{
    if i < s.len() {
        if is_digit(s[i as int]) {
            lemma_scan_bounds(s, i + 1);
        } else if is_blank_char(s[i as int]) {
            lemma_skip_bounds(s, i + 1);
        }
    }
}

fn expected_list(had_digit: bool) -> (r: Vec<String>)
    ensures
        views_of(r@) == expected_view(had_digit),
{
    let mut v: Vec<String> = Vec::new();
    v.push(String::from_str("a digit"));
    if had_digit {
        v.push(String::from_str("a number separator (space, tab or `x`)"));
        v.push(String::from_str("a card name"));
    }
    assert(views_of(v@) =~= expected_view(had_digit));
    v
}

/// Runs the character state machine over a line: returns where the numeral
/// ends and where the name begins, or the error at the first character that
/// the numbering state refuses.
pub fn split_line(string: &str) -> (r: Result<(usize, usize), ParseError>)
    ensures
        match scan_number(string@, 0) {
            Scan::Split { digits_end, name_start } => r matches Ok((d, n)) && d == digits_end
                && n == name_start,
            Scan::Unexpected { column, obtained, had_digit } => r matches Err(e) && reports(
                e,
                LineOutcome::Unexpected { column, obtained, had_digit },
            ),
        },
{
    let n = string.unicode_len();
    let mut i: usize = 0;
    while i < n
        invariant
            n == string@.len(),
            i <= n,
            scan_number(string@, 0) == scan_number(string@, i as nat),
        decreases n - i,
    {
        let c = string.get_char(i);
        if '0' <= c && c <= '9' {
            i = i + 1;
        } else if c == ' ' || c == '\t' {
            assert(scan_number(string@, 0) == Scan::Split {
                digits_end: i as nat,
                name_start: skip_separator(string@, (i + 1) as nat),
            });
            let mut j: usize = i + 1;
            while j < n
                invariant
                    n == string@.len(),
                    i < j <= n,
                    scan_number(string@, 0) == (Scan::Split {
                        digits_end: i as nat,
                        name_start: skip_separator(string@, (i + 1) as nat),
                    }),
                    skip_separator(string@, (i + 1) as nat) == skip_separator(string@, j as nat),
                decreases n - j,
            {
                let d = string.get_char(j);
                if d == ' ' || d == '\t' {
                    j = j + 1;
                } else if d == 'x' || d == 'X' {
                    return Ok((i, j + 1));
                } else {
                    return Ok((i, j));
                }
            }
            return Ok((i, j));
        } else if c == 'x' || c == 'X' {
            return Ok((i, i + 1));
        } else {
            let had_digit = i > 0;
            return Err(
                ParseError {
                    position: LinePosition { line: None, column: Some(i + 1) },
                    error: Error::UnexpectedChar { obtained: c, expected: expected_list(had_digit) },
                },
            );
        }
    }
    Ok((n, n))
}

/// Reads a numeral of ASCII digits as an `i64`, or says why it cannot:
/// it is empty, holds another character, or is too large.
pub fn parse_amount(digits: &str) -> (r: Result<i64, NumberIssue>)
    ensures
        match numeral_issue(digits@) {
            Some(i) => r == Err::<i64, NumberIssue>(i),
            None => r matches Ok(v) && v == capped_decimal(digits@),
        },
{
    let n = digits.unicode_len();
    if n == 0 {
        return Err(NumberIssue::Empty);
    }
    let mut acc: u128 = 0;
    let mut i: usize = 0;
    while i < n
        invariant
            n == digits@.len(),
            i <= n,
            acc == capped_decimal(digits@.subrange(0, i as int)),
            acc <= i64::MAX + 1,
            forall|k: int| 0 <= k < i ==> is_digit(#[trigger] digits@[k]),
        decreases n - i,
    {
        let c = digits.get_char(i);
        if !('0' <= c && c <= '9') {
            assert(!is_digit(digits@[i as int]));
            return Err(NumberIssue::InvalidDigit);
        }
        assert(digits@.subrange(0, i + 1).drop_last() =~= digits@.subrange(0, i as int));
        let v: u128 = acc * 10 + (c as u128 - '0' as u128);
        if v > i64::MAX as u128 {
            acc = i64::MAX as u128 + 1;
        } else {
            acc = v;
        }
        i = i + 1;
    }
    assert(digits@.subrange(0, n as int) =~= digits@);
    if acc > i64::MAX as u128 {
        Err(NumberIssue::TooLarge)
    } else {
        Ok(acc as i64)
    }
}

/// Judges a numeral and an already trimmed name: the amount, or the error for
/// a bad numeral, a zero amount, or an empty name, in that order.
pub fn check_parts(digits: &str, name: &str) -> (r: Result<i64, ParseError>)
    ensures
        match parts_outcome(digits@, name@) {
            LineOutcome::Named { amount, .. } => r matches Ok(v) && v == amount,
            o => r matches Err(e) && reports(e, o),
        },
{
    let number = match parse_amount(digits) {
        Ok(v) => v,
        Err(reason) => {
            return Err(
                ParseError {
                    position: LinePosition::void(),
                    error: Error::NotANumber { string: digits.to_owned(), reason },
                },
            );
        },
    };
    if number == 0 {
        Err(
            ParseError {
                position: LinePosition::void(),
                error: Error::AmountIsZero { card_name: name.to_owned() },
            },
        )
    } else if name.is_empty() {
        Err(ParseError { position: LinePosition::void(), error: Error::NameIsEmpty })
    } else {
        Ok(number)
    }
}

/// Parses one line into an entry. Syntax errors carry their column; the
/// other errors carry no position; an error of the card source is passed on
/// as it came.
pub fn parse_line<T: GetCardInfo + Clone>(string: &str) -> (r: Result<CardEntry<T>, ParseError>)
    ensures
        match line_outcome(string@) {
            LineOutcome::Named { amount, name } => {
                &&& r is Ok <==> T::accepts(name)
                &&& r matches Ok(e) ==> e.amount == amount && e.card.name_view() == name
                &&& r matches Err(e) ==> T::rejects_with(name, e)
            },
            o => r matches Err(e) && reports(e, o),
        },
{
    let (digits_end, name_start) = match split_line(string) {
        Ok(p) => p,
        Err(e) => return Err(e),
    };
    let n = string.unicode_len();
    proof {
        lemma_scan_bounds(string@, 0);
    }
    let digits = string.substring_char(0, digits_end);
    let name = trim_text(string.substring_char(name_start, n));
    let amount = match check_parts(digits, name) {
        Ok(v) => v,
        Err(e) => return Err(e),
    };
    match T::parse(name) {
        Ok(card) => Ok(CardEntry { card, amount }),
        Err(e) => Err(e),
    }
}

/// A line that holds nothing but whitespace.
pub open spec fn is_blank_line(t: Seq<char>) -> bool {
    trimmed(t).len() == 0
}

/// What the reading of a whole source makes of one line, given the entries
/// (amount and name) accepted on the lines before it.
pub enum LineVerdict {
    Skip,
    Fault { message: Seq<char> },
    Bad { outcome: LineOutcome },
    Rejected { name: Seq<char> },
    Repeated { name: Seq<char> },
    Accepted { amount: int, name: Seq<char> },
}

pub open spec fn judge<T: GetCardInfo + Clone>(
    seen: Seq<(int, Seq<char>)>,
    l: Result<String, String>,
) -> LineVerdict {
    match l {
        Err(m) => LineVerdict::Fault { message: m@ },
        Ok(t) => if is_blank_line(t@) {
            LineVerdict::Skip
        } else {
            match line_outcome(t@) {
                LineOutcome::Named { amount, name } => if !T::accepts(name) {
                    LineVerdict::Rejected { name }
                } else if exists|k: int| 0 <= k < seen.len() && (#[trigger] seen[k]).1 == name {
                    LineVerdict::Repeated { name }
                } else {
                    LineVerdict::Accepted { amount, name }
                },
                o => LineVerdict::Bad { outcome: o },
            }
        },
    }
}

/// The entries accepted over the lines, in order.
pub open spec fn accepted<T: GetCardInfo + Clone>(lines: Seq<Result<String, String>>) -> Seq<
    (int, Seq<char>),
>
    decreases lines.len(),
{
    if lines.len() == 0 {
        seq![]
    } else {
        let prev = accepted::<T>(lines.drop_last());
        match judge::<T>(prev, lines.last()) {
            LineVerdict::Accepted { amount, name } => prev.push((amount, name)),
            _ => prev,
        }
    }
}

/// The verdict on line `i` (0-based) of a source.
pub open spec fn verdict<T: GetCardInfo + Clone>(lines: Seq<Result<String, String>>, i: int) -> LineVerdict {
    judge::<T>(accepted::<T>(lines.take(i)), lines[i])
}

pub open spec fn is_failure(v: LineVerdict) -> bool {
    !(v is Skip) && !(v is Accepted)
}

/// The (0-based) lines that fail, in order.
pub open spec fn failures<T: GetCardInfo + Clone>(lines: Seq<Result<String, String>>) -> Seq<int>
    decreases lines.len(),
{
    if lines.len() == 0 {
        seq![]
    } else {
        let prev = failures::<T>(lines.drop_last());
        if is_failure(judge::<T>(accepted::<T>(lines.drop_last()), lines.last())) {
            prev.push(lines.len() - 1)
        } else {
            prev
        }
    }
}

/// `e` is the error for a failing line with verdict `v`, numbered `line`.
pub open spec fn error_for<T: GetCardInfo + Clone>(
    e: ParseError,
    v: LineVerdict,
    line: int,
    path: Seq<char>,
) -> bool {
    &&& e.position.line == Some(line as usize)
    &&& match v {
        LineVerdict::Fault { message } => {
            &&& e.position.column.is_none()
            &&& e.error matches Error::CouldntReadLine { path: p, line: l, message: m } && p@
                == path && l == line && m@ == message
        },
        LineVerdict::Bad { outcome } => reports_on(e, outcome),
        LineVerdict::Rejected { name } => exists|pe: ParseError|
            #[trigger] T::rejects_with(name, pe) && pe.error == e.error && pe.position.column
                == e.position.column,
        LineVerdict::Repeated { name } => {
            &&& e.position.column.is_none()
            &&& e.error matches Error::NameMultipleTimes { name: n } && n@ == name
        },
        _ => false,
    }
}

/// The entries match the accepted amounts and names one for one.
pub open spec fn entries_match<T: GetCardInfo + Clone>(
    es: Seq<CardEntry<T>>,
    acc: Seq<(int, Seq<char>)>,
) -> bool {
    &&& es.len() == acc.len()
    &&& forall|k: int|
        0 <= k < es.len() ==> (#[trigger] es[k]).amount == acc[k].0 && es[k].card.name_view()
            == acc[k].1
}

/// The errors match the failing lines one for one, in order.
pub open spec fn errors_match<T: GetCardInfo + Clone>(
    errs: Seq<ParseError>,
    lines: Seq<Result<String, String>>,
    fails: Seq<int>,
    path: Seq<char>,
) -> bool {
    &&& errs.len() == fails.len()
    &&& forall|k: int|
        0 <= k < errs.len() ==> error_for::<T>(
            #[trigger] errs[k],
            verdict::<T>(lines, fails[k]),
            fails[k] + 1,
            path,
        )
}

fn name_seen(names: &Vec<String>, name: &String) -> (r: bool)
    ensures
        r == exists|k: int| 0 <= k < names@.len() && (#[trigger] names@[k])@ == name@,
{
    let mut i: usize = 0;
    while i < names.len()
        invariant
            i <= names@.len(),
            forall|k: int| 0 <= k < i ==> (#[trigger] names@[k])@ != name@,
        decreases names@.len() - i,
    {
        if names[i] == *name {
            return true;
        }
        i = i + 1;
    }
    false
}

/// Parses the lines of a source, numbered from 1. Blank lines are skipped;
/// a read fault, a line that does not parse, a name that the card source
/// refuses, and a name seen on an earlier accepted line each give one error
/// on their line, and reading goes on. The result is every accepted entry
/// when no line failed, else every error, in line order.
pub fn parse_lines<T: GetCardInfo + Clone>(path: &str, lines: Vec<Result<String, String>>) -> (r:
    Result<Vec<CardEntry<T>>, Vec<ParseError>>)
    ensures
        r is Ok <==> failures::<T>(lines@).len() == 0,
        r matches Ok(es) ==> entries_match(es@, accepted::<T>(lines@)),
        r matches Err(errs) ==> errors_match::<T>(errs@, lines@, failures::<T>(lines@), path@),
{
    let mut cards: Vec<CardEntry<T>> = Vec::new();
    let mut used_names: Vec<String> = Vec::new();
    let mut errors: Vec<ParseError> = Vec::new();
    let n = lines.len();
    let mut i: usize = 0;
    while i < n
        invariant
            n == lines@.len(),
            i <= n,
            entries_match(cards@, accepted::<T>(lines@.take(i as int))),
            used_names@.len() == cards@.len(),
            forall|k: int|
                0 <= k < cards@.len() ==> (#[trigger] used_names@[k])@ == accepted::<T>(
                    lines@.take(i as int),
                )[k].1,
            errors_match::<T>(errors@, lines@, failures::<T>(lines@.take(i as int)), path@),
        decreases n - i,
    {
        let line_idx: usize = i + 1;
        let ghost prev = lines@.take(i as int);
        let ghost seen = accepted::<T>(prev);
        let ghost fails = failures::<T>(prev);
        let ghost v = verdict::<T>(lines@, i as int);
        proof {
            assert(lines@.take(i + 1).drop_last() =~= prev);
            assert(lines@.take(i + 1).last() == lines@[i as int]);
            assert(v == judge::<T>(seen, lines@[i as int]));
        }
        let ghost errors_before = errors@;
        let ghost cards_before = cards@;
        match &lines[i] {
            Ok(text) => {
                let trimmed_text = trim_text(text.as_str());
                if !trimmed_text.is_empty() {
                    match parse_line::<T>(text.as_str()) {
                        Ok(entry) => {
                            let name = entry.card.get_name().to_owned();
                            let repeated = name_seen(&used_names, &name);
                            proof {
                                if repeated {
                                    let k = choose|k: int|
                                        0 <= k < used_names@.len() && (#[trigger] used_names@[k])@
                                            == name@;
                                    assert(seen[k].1 == name@);
                                } else {
                                    assert forall|k: int| 0 <= k < seen.len() implies (
                                    #[trigger] seen[k]).1 != name@ by {
                                        assert(used_names@[k]@ == seen[k].1);
                                    }
                                }
                            }
                            if repeated {
                                errors.push(
                                    ParseError {
                                        position: LinePosition { line: Some(line_idx), column: None },
                                        error: Error::NameMultipleTimes { name },
                                    },
                                );
                            } else {
                                used_names.push(name);
                                cards.push(entry);
                            }
                        },
                        Err(error) => {
                            let ghost pe = error;
                            let e = error.at_line(line_idx);
                            proof {
                                if v is Rejected {
                                    assert(T::rejects_with(v->Rejected_name, pe));
                                }
                            }
                            errors.push(e);
                        },
                    }
                }
            },
            Err(message) => {
                errors.push(
                    ParseError {
                        position: LinePosition { line: Some(line_idx), column: None },
                        error: Error::CouldntReadLine {
                            path: path.to_owned(),
                            line: line_idx,
                            message: message.clone(),
                        },
                    },
                );
            },
        }
        proof {
            let fails2 = failures::<T>(lines@.take(i + 1));
            assert forall|k: int| 0 <= k < errors@.len() implies error_for::<T>(
                #[trigger] errors@[k],
                verdict::<T>(lines@, fails2[k]),
                fails2[k] + 1,
                path@,
            ) by {
                if k < errors_before.len() {
                    assert(errors@[k] == errors_before[k]);
                    assert(fails2[k] == fails[k]);
                }
            }
        }
        i = i + 1;
    }
    assert(lines@.take(n as int) =~= lines@);
    if errors.len() == 0 {
        Ok(cards)
    } else {
        Err(errors)
    }
}

/// Past a run of digits, the numbering state is where it would be at the
/// run's end.
proof fn lemma_scan_digits(s: Seq<char>, i: nat, end: nat)
    requires
        i <= end <= s.len(),
        forall|k: int| 0 <= k < end ==> is_digit(#[trigger] s[k]),
    ensures
        scan_number(s, i) == scan_number(s, end),
    decreases end - i,
{
    if i < end {
        lemma_scan_digits(s, i + 1, end);
    }
}

/// A line made of a numeral of value at least 1, an `x`, and a text whose
/// trimmed form is not empty, reads as that amount and that trimmed name.
pub proof fn lemma_valid_line(digits: Seq<char>, ex: char, rest: Seq<char>)
    requires
        numeral_fits(digits),
        capped_decimal(digits) >= 1,
        is_ex(ex),
        trimmed(rest).len() > 0,
    ensures
        line_outcome(digits.push(ex) + rest) == (LineOutcome::Named {
            amount: capped_decimal(digits),
            name: trimmed(rest),
        }),
{
    let s = digits.push(ex) + rest;
    let d = digits.len();
    assert forall|k: int| 0 <= k < d implies is_digit(#[trigger] s[k]) by {
        assert(s[k] == digits[k]);
    }
    lemma_scan_digits(s, 0, d);
    assert(s[d as int] == ex);
    assert(s.subrange(0, d as int) =~= digits);
    assert(s.subrange((d + 1) as int, s.len() as int) =~= rest);
}

/// A line whose numeral (possibly empty) is followed by a character that is
/// no digit, no space or tab, and no `x`, fails at that character's 1-based
/// column.
pub proof fn lemma_unexpected_column(digits: Seq<char>, c: char, rest: Seq<char>)
    requires
        forall|k: int| 0 <= k < digits.len() ==> is_digit(#[trigger] digits[k]),
        !is_digit(c),
        !is_blank_char(c),
        !is_ex(c),
    ensures
        line_outcome(digits.push(c) + rest) == (LineOutcome::Unexpected {
            column: digits.len() + 1,
            obtained: c,
            had_digit: digits.len() > 0,
        }),
{
    let s = digits.push(c) + rest;
    let d = digits.len();
    assert forall|k: int| 0 <= k < d implies is_digit(#[trigger] s[k]) by {
        assert(s[k] == digits[k]);
    }
    lemma_scan_digits(s, 0, d);
    assert(s[d as int] == c);
}

/// A blank line, inserted anywhere in a source, changes neither the entries
/// accepted nor the number of failing lines.
pub proof fn lemma_blank_line_ignored<T: GetCardInfo + Clone>(
    lines: Seq<Result<String, String>>,
    p: int,
    b: Result<String, String>,
)
    requires
        0 <= p <= lines.len(),
        b matches Ok(t) && is_blank_line(t@),
    ensures
        accepted::<T>(lines.insert(p, b)) == accepted::<T>(lines),
        failures::<T>(lines.insert(p, b)).len() == failures::<T>(lines).len(),
    decreases lines.len(),
{
    let ins = lines.insert(p, b);
    if p == lines.len() {
        assert(ins.drop_last() =~= lines);
    } else {
        lemma_blank_line_ignored::<T>(lines.drop_last(), p, b);
        assert(ins.drop_last() =~= lines.drop_last().insert(p, b));
        assert(ins.last() == lines.last());
    }
}

} // verus!
