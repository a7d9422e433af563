//! Turns the contents of an input file into the list of items (IP addresses
//! or domain names) to process: plain text with one item per line, or a CSV
//! table with the item in a chosen column.

use vstd::prelude::*;
use crate::text::{
    chars_eq_ignore_case, chars_of, decimal, eq_ignore_case, is_digit, join, lower, lower_chars,
    is_white_space, lemma_trim_edges, push_decimal, push_joined, string_of, trim, trim_chars,
    trim_end, trim_start, views,
};

verus! {

/// A single input row: either the item to process, or the error message for a
/// row that could not yield an item (e.g. an empty or short CSV row). Callers
/// must emit an output row for every entry so no input row is silently dropped.
pub type InputEntry = Result<String, String>;

/// The view of an input entry.
pub open spec fn entry_view(e: InputEntry) -> Result<Seq<char>, Seq<char>> {
    match e {
        Ok(s) => Ok(s@),
        Err(m) => Err(m@),
    }
}

/// The views of a list of input entries.
pub open spec fn entry_views(v: Seq<InputEntry>) -> Seq<Result<Seq<char>, Seq<char>>> {
    v.map_values(|e: InputEntry| entry_view(e))
}

// ---------------------------------------------------------------------------
// Plain text
// ---------------------------------------------------------------------------

/// `s` cut at every line feed: the pieces between line feeds, always at least one.
pub open spec fn split_lines(s: Seq<char>) -> Seq<Seq<char>>
    decreases s.len(),
{
    if s.len() == 0 {
        seq![Seq::<char>::empty()]
    } else if s.last() == '\n' {
        split_lines(s.drop_last()).push(Seq::<char>::empty())
    } else {
        let ls = split_lines(s.drop_last());
        ls.update(ls.len() - 1, ls.last().push(s.last()))
    }
}

/// Cutting at line feeds gives at least one piece.
proof fn lemma_split_lines_len(s: Seq<char>)
    ensures
        split_lines(s).len() >= 1,
    decreases s.len(),
{
    if s.len() > 0 {
        lemma_split_lines_len(s.drop_last());
    }
}

/// Whether a trimmed line holds an item: it is not blank and not a `#` comment.
pub open spec fn is_item_line(t: Seq<char>) -> bool {
    t.len() > 0 && t[0] != '#'
}

/// The items of a list of lines: each line trimmed, keeping those that hold an item.
pub open spec fn line_items(lines: Seq<Seq<char>>) -> Seq<Seq<char>>
    decreases lines.len(),
{
    if lines.len() == 0 {
        seq![]
    } else {
        let rest = line_items(lines.drop_last());
        let t = trim(lines.last());
        if is_item_line(t) {
            rest.push(t)
        } else {
            rest
        }
    }
}

/// The items of a plain text input: one per line, trimmed; blank lines and
/// `#` comments are skipped.
pub open spec fn text_items(content: Seq<char>) -> Seq<Seq<char>> {
    line_items(split_lines(content))
}

/// Appends the item that `line` holds, if any, to `items`.
fn push_line_item(items: &mut Vec<String>, line: &Vec<char>)
    ensures
        views(final(items)@) == if is_item_line(trim(line@)) {
            views(old(items)@).push(trim(line@))
        } else {
            views(old(items)@)
        },
{
    let t = trim_chars(line);
    if t.len() > 0 && t[0] != '#' {
        let ghost prev = items@;
        items.push(string_of(&t));
        assert(views(items@) =~= views(prev).push(trim(line@)));
    }
}

/// Plain text: one item per line; blank lines and `#` comments are skipped.
pub fn parse_text(content: &str) -> (items: Vec<String>)
    ensures
        views(items@) == text_items(content@),
{
    let cs = chars_of(content);
    let mut items: Vec<String> = Vec::new();
    let mut line: Vec<char> = Vec::new();
    let mut k: usize = 0;
    assert(cs@.take(0) =~= Seq::<char>::empty());
    while k < cs.len()
        invariant
            k <= cs.len(),
            split_lines(cs@.take(k as int)).len() >= 1,
            views(items@) == line_items(split_lines(cs@.take(k as int)).drop_last()),
            line@ == split_lines(cs@.take(k as int)).last(),
        decreases cs.len() - k,
    {
        let c = cs[k];
        let ghost before = cs@.take(k as int);
        let ghost after = cs@.take(k + 1);
        assert(after.drop_last() =~= before);
        assert(after.last() == c);
        proof {
            lemma_split_lines_len(after);
        }
        if c == '\n' {
            push_line_item(&mut items, &line);
            line = Vec::new();
            assert(split_lines(after).drop_last() =~= split_lines(before));
        } else {
            line.push(c);
            assert(split_lines(after).drop_last() =~= split_lines(before).drop_last());
        }
        k += 1;
    }
    assert(cs@.take(cs.len() as int) =~= cs@);
    push_line_item(&mut items, &line);
    items
}

/// Every item of a list of lines is the trimmed text of a line that holds an item.
proof fn lemma_line_items_clean(lines: Seq<Seq<char>>)
    ensures
        forall|i: int|
            0 <= i < line_items(lines).len() ==> is_item_line(#[trigger] line_items(lines)[i])
                && trim(line_items(lines)[i]) == line_items(lines)[i],
    decreases lines.len(),
{
    if lines.len() > 0 {
        let rest = line_items(lines.drop_last());
        lemma_line_items_clean(lines.drop_last());
        let t = trim(lines.last());
        lemma_trim_idempotent(lines.last());
        assert forall|i: int| 0 <= i < line_items(lines).len() implies is_item_line(
            #[trigger] line_items(lines)[i],
        ) && trim(line_items(lines)[i]) == line_items(lines)[i] by {
            if i < rest.len() {
                assert(line_items(lines)[i] == rest[i]);
            } else {
                assert(line_items(lines)[i] == t);
            }
        }
    }
}

/// Trimming a trimmed string changes nothing.
proof fn lemma_trim_idempotent(s: Seq<char>)
    ensures
        trim(trim(s)) == trim(s),
{
    let t = trim(s);
    lemma_trim_edges(s);
    if t.len() > 0 {
        assert(trim_start(t) == t);
        assert(trim_end(t) == t);
    } else {
        assert(trim_start(t) == t);
        assert(trim_end(t) == t);
    }
}

/// Plain-text items are never blank and never comments: each is non-empty,
/// does not start with `#`, and has no leading or trailing whitespace.
pub proof fn text_items_are_clean(content: Seq<char>)
    ensures
        forall|i: int|
            0 <= i < text_items(content).len() ==> {
                let t = #[trigger] text_items(content)[i];
                &&& t.len() > 0
                &&& t[0] != '#'
                &&& !is_white_space(t[0])
                &&& !is_white_space(t.last())
            },
{
    lemma_line_items_clean(split_lines(content));
    assert forall|i: int| 0 <= i < text_items(content).len() implies {
        let t = #[trigger] text_items(content)[i];
        &&& t.len() > 0
        &&& t[0] != '#'
        &&& !is_white_space(t[0])
        &&& !is_white_space(t.last())
    } by {
        let t = text_items(content)[i];
        lemma_trim_edges(t);
    }
}

// ---------------------------------------------------------------------------
// Column indexes
// ---------------------------------------------------------------------------

/// Whether every character of `d` is an ASCII decimal digit.
pub open spec fn all_digits(d: Seq<char>) -> bool {
    forall|i: int| 0 <= i < d.len() ==> is_digit(#[trigger] d[i])
}

/// The number that the decimal digits `d` spell.
pub open spec fn digits_value(d: Seq<char>) -> nat
    decreases d.len(),
{
    if d.len() == 0 {
        0
    } else {
        digits_value(d.drop_last()) * 10 + ((d.last() as int) - 48) as nat
    }
}

/// The digits of a decimal number: `s` without one leading `+`.
pub open spec fn unsigned_digits(s: Seq<char>) -> Seq<char> {
    if s.len() > 0 && s[0] == '+' {
        s.drop_first()
    } else {
        s
    }
}

/// The value that `usize::from_str` gives for `s`: an optional `+`, then at
/// least one decimal digit and nothing else, with a value that fits `usize`.
pub open spec fn usize_value(s: Seq<char>) -> Option<usize> {
    let d = unsigned_digits(s);
    if d.len() > 0 && all_digits(d) && digits_value(d) <= usize::MAX {
        Some(digits_value(d) as usize)
    } else {
        None
    }
}

/// The value of digits never falls below the value of a prefix of them.
proof fn lemma_digits_prefix(d: Seq<char>, j: int)
    requires
        all_digits(d),
        0 <= j <= d.len(),
    ensures
        digits_value(d.take(j)) <= digits_value(d),
    decreases d.len(),
{
    if j < d.len() {
        assert(d.drop_last().take(j) =~= d.take(j));
        lemma_digits_prefix(d.drop_last(), j);
        assert(is_digit(d[d.len() - 1]));
    } else {
        assert(d.take(j) =~= d);
    }
}

/// Parses a column index as `usize::from_str` does.
pub fn parse_usize(s: &str) -> (r: Option<usize>)
    ensures
        r == usize_value(s@),
{
    let cs = chars_of(s);
    let start: usize = if cs.len() > 0 && cs[0] == '+' { 1 } else { 0 };
    let ghost d = unsigned_digits(cs@);
    assert(d =~= cs@.subrange(start as int, cs.len() as int));
    if start >= cs.len() {
        assert(d.len() == 0);
        return None;
    }
    let mut k = start;
    while k < cs.len()
        invariant
            start <= k <= cs.len(),
            cs@ == s@,
            d == unsigned_digits(s@),
            d =~= cs@.subrange(start as int, cs.len() as int),
            forall|i: int| 0 <= i < k - start ==> is_digit(#[trigger] d[i]),
        decreases cs.len() - k,
    {
        if !('0' <= cs[k] && cs[k] <= '9') {
            assert(!is_digit(d[k - start]));
            return None;
        }
        k += 1;
    }
    assert(all_digits(d));
    let mut value: usize = 0;
    let mut k = start;
    while k < cs.len()
        invariant
            start <= k <= cs.len(),
            cs@ == s@,
            d == unsigned_digits(s@),
            d =~= cs@.subrange(start as int, cs.len() as int),
            all_digits(d),
            value == digits_value(d.take(k - start)),
        decreases cs.len() - k,
    {
        assert(d[k - start] == cs@[k as int]);
        assert(is_digit(d[k - start]));
        let digit = (cs[k] as u32 - 48) as usize;
        let ghost next = d.take(k + 1 - start);
        assert(next.drop_last() =~= d.take(k - start));
        assert(next.last() == cs@[k as int]);
        assert(digits_value(next) == value * 10 + digit);
        match value.checked_mul(10) {
            None => {
                proof {
                    lemma_digits_prefix(d, k + 1 - start);
                }
                return None;
            },
            Some(tens) => match tens.checked_add(digit) {
                None => {
                    proof {
                        lemma_digits_prefix(d, k + 1 - start);
                    }
                    return None;
                },
                Some(v) => {
                    value = v;
                },
            },
        }
        k += 1;
    }
    assert(d.take(cs.len() - start) =~= d);
    Some(value)
}

// ---------------------------------------------------------------------------
// CSV
// ---------------------------------------------------------------------------

/// A CSV input as read by the `csv` crate: the header fields (or the error
/// that reading them gave), the data records in order, and the error that
/// stopped reading records, if one did.
pub struct CsvTable {
    pub headers: Result<Vec<String>, String>,
    pub records: Vec<Vec<String>>,
    pub failure: Option<String>,
}

/// The view of a CSV table's header fields.
pub open spec fn headers_view(h: Result<Vec<String>, String>) -> Result<Seq<Seq<char>>, Seq<char>> {
    match h {
        Ok(v) => Ok(views(v@)),
        Err(e) => Err(e@),
    }
}

/// The views of a CSV table's data records.
pub open spec fn records_view(r: Seq<Vec<String>>) -> Seq<Seq<Seq<char>>> {
    r.map_values(|row: Vec<String>| views(row@))
}

/// The view of an optional message.
pub open spec fn message_view(m: Option<String>) -> Option<Seq<char>> {
    match m {
        Some(s) => Some(s@),
        None => None,
    }
}

/// The header fields that a `csv::Reader` (headers on, flexible, all fields
/// trimmed) reads from `content`, or the text of the error it reports.
pub uninterp spec fn csv_header_fields(content: Seq<char>) -> Result<Seq<Seq<char>>, Seq<char>>;

/// The data records that the same reader yields from `content` before its
/// first error, and the text of that error, if there is one.
pub uninterp spec fn csv_data_records(content: Seq<char>) -> (Seq<Seq<Seq<char>>>, Option<Seq<char>>);

/// Reads `content` with a `csv::Reader` built by `csv::ReaderBuilder` (headers
/// on, flexible record lengths, `Trim::All`): `Reader::headers`, then
/// `Reader::records` up to the first error. Claims only that the header result
/// and the records read are functions of `content` alone, named
/// `csv_header_fields` and `csv_data_records`.
#[verifier::external_body]
fn read_csv(content: &str) -> (t: CsvTable)
    ensures
        headers_view(t.headers) == csv_header_fields(content@),
        (records_view(t.records@), message_view(t.failure)) == csv_data_records(content@),
{
    let mut reader = csv::ReaderBuilder::new().has_headers(true).flexible(true).trim(
        csv::Trim::All,
    ).from_reader(content.as_bytes());
    let headers = reader.headers().map(|h| h.iter().map(String::from).collect()).map_err(
        |e| e.to_string(),
    );
    let mut records = Vec::new();
    for row in reader.records() {
        match row {
            Ok(r) => records.push(r.iter().map(String::from).collect()),
            Err(e) => return CsvTable { headers, records, failure: Some(e.to_string()) },
        }
    }
    CsvTable { headers, records, failure: None }
}

/// Whether `p` is the first header that equals `c` up to ASCII case.
pub open spec fn is_first_match(headers: Seq<Seq<char>>, c: Seq<char>, p: int) -> bool {
    &&& 0 <= p < headers.len()
    &&& eq_ignore_case(headers[p], c)
    &&& forall|j: int| 0 <= j < p ==> !eq_ignore_case(#[trigger] headers[j], c)
}

/// The column that `column` selects in a CSV header: the 0-based index and the
/// label used in messages, or why none is selected. A `column` that is not a
/// number is a header name, matched ignoring ASCII case (the first match
/// wins); a number is a 1-based index.
pub open spec fn column_choice(headers: Seq<Seq<char>>, column: Option<Seq<char>>) -> Result<
    (int, Seq<char>),
    Seq<char>,
> {
    match column {
        None => Err("CSV input requires --column <name|index>"@),
        Some(c) => match usize_value(c) {
            None => if exists|p: int| is_first_match(headers, c, p) {
                let p = choose|p: int| is_first_match(headers, c, p);
                Ok((p, headers[p]))
            } else {
                Err(
                    "column '"@ + c + "' not found in CSV header: "@ + join(headers, ", "@),
                )
            },
            Some(i) => if i == 0 {
                Err("column index must be >= 1 (got '0')"@)
            } else if i > headers.len() {
                Err(
                    "column index "@ + decimal(i as nat) + " is out of range (CSV has "@ + decimal(
                        headers.len(),
                    ) + " columns: "@ + join(headers, ", "@) + ")"@,
                )
            } else {
                Ok((i - 1, decimal(i as nat)))
            },
        },
    }
}

/// The entry for the data record `row` on line `line`, taking the item from
/// column `idx` (labelled `label` in messages).
pub open spec fn csv_entry(row: Seq<Seq<char>>, line: nat, idx: int, label: Seq<char>) -> Result<
    Seq<char>,
    Seq<char>,
> {
    if idx < row.len() {
        let v = trim(row[idx]);
        if v.len() > 0 {
            Ok(v)
        } else {
            Err(
                "CSV line "@ + decimal(line) + ": empty value in column '"@ + label + "'"@,
            )
        }
    } else {
        Err(
            "CSV line "@ + decimal(line) + ": row has "@ + decimal(row.len()) + " column(s), need at least "@
                + decimal((idx + 1) as nat) + " for column '"@ + label + "'"@,
        )
    }
}

/// The entries of a CSV table, or the error that stops reading it: no header
/// row, no usable column, or a data record that could not be read. Data
/// record `k` is on line `k + 2` (the header is line 1).
pub open spec fn csv_entries(
    headers: Result<Seq<Seq<char>>, Seq<char>>,
    records: Seq<Seq<Seq<char>>>,
    failure: Option<Seq<char>>,
    column: Option<Seq<char>>,
) -> Result<Seq<Result<Seq<char>, Seq<char>>>, Seq<char>> {
    match headers {
        Err(e) => Err("CSV input has no header row: "@ + e),
        Ok(hs) => match column_choice(hs, column) {
            Err(m) => Err(m),
            Ok((idx, label)) => match failure {
                Some(e) => Err(
                    "failed to parse CSV line "@ + decimal(records.len() + 2) + ": "@ + e,
                ),
                None => Ok(
                    Seq::new(
                        records.len(),
                        |k: int| csv_entry(records[k], (k + 2) as nat, idx, label),
                    ),
                ),
            },
        },
    }
}

/// A CSV input that can be read yields exactly one entry per data record: no
/// row is silently dropped.
pub proof fn csv_keeps_every_record(
    headers: Result<Seq<Seq<char>>, Seq<char>>,
    records: Seq<Seq<Seq<char>>>,
    failure: Option<Seq<char>>,
    column: Option<Seq<char>>,
)
    ensures
        csv_entries(headers, records, failure, column) matches Ok(es) ==> es.len() == records.len(),
{
}

/// A numeric column is a 1-based index. For a header of `n` fields, an index
/// `c` with `1 <= c <= n` is accepted, and the entry of every data record is
/// its field `c - 1`, trimmed, or an error when the record is too short or
/// that field is blank; an index `0` or above `n` is refused.
pub proof fn numeric_column_selects_field(
    headers: Seq<Seq<char>>,
    records: Seq<Seq<Seq<char>>>,
    failure: Option<Seq<char>>,
    column: Seq<char>,
    c: usize,
)
    requires
        usize_value(column) == Some(c),
    ensures
        (1 <= c <= headers.len() && failure is None) ==> {
            &&& csv_entries(Ok(headers), records, failure, Some(column)) is Ok
            &&& csv_entries(Ok(headers), records, failure, Some(column))->Ok_0.len() == records.len()
            &&& forall|k: int|
                0 <= k < records.len() ==> {
                    let e = #[trigger] csv_entries(Ok(headers), records, failure, Some(column))->Ok_0[k];
                    &&& (c - 1 < records[k].len() && trim(records[k][c - 1]).len() > 0) ==> e
                        == Ok::<Seq<char>, Seq<char>>(trim(records[k][c - 1]))
                    &&& (c - 1 >= records[k].len() || trim(records[k][c - 1]).len() == 0) ==> e is Err
                }
        },
        (c == 0 || c > headers.len()) ==> csv_entries(Ok(headers), records, failure, Some(column)) is Err,
{
}

/// A column that is not a number names a header, ignoring ASCII case: when
/// header `p` is the first that equals it, the entry of every data record is
/// its field `p`, trimmed, or an error when the record is too short or that
/// field is blank; when no header equals it, the input is refused.
pub proof fn named_column_selects_first_match(
    headers: Seq<Seq<char>>,
    records: Seq<Seq<Seq<char>>>,
    failure: Option<Seq<char>>,
    column: Seq<char>,
    p: int,
)
    requires
        usize_value(column) is None,
    ensures
        (0 <= p < headers.len() && eq_ignore_case(headers[p], column) && (forall|j: int|
            0 <= j < p ==> !eq_ignore_case(#[trigger] headers[j], column)) && failure is None) ==> {
            &&& csv_entries(Ok(headers), records, failure, Some(column)) is Ok
            &&& csv_entries(Ok(headers), records, failure, Some(column))->Ok_0.len() == records.len()
            &&& forall|k: int|
                0 <= k < records.len() ==> {
                    let e = #[trigger] csv_entries(Ok(headers), records, failure, Some(column))->Ok_0[k];
                    &&& (p < records[k].len() && trim(records[k][p]).len() > 0) ==> e
                        == Ok::<Seq<char>, Seq<char>>(trim(records[k][p]))
                    &&& (p >= records[k].len() || trim(records[k][p]).len() == 0) ==> e is Err
                }
        },
        (forall|j: int| 0 <= j < headers.len() ==> !eq_ignore_case(#[trigger] headers[j], column))
            ==> csv_entries(Ok(headers), records, failure, Some(column)) is Err,
{
    if 0 <= p < headers.len() && eq_ignore_case(headers[p], column) && (forall|j: int|
        0 <= j < p ==> !eq_ignore_case(#[trigger] headers[j], column)) {
        assert(is_first_match(headers, column, p));
        let q = choose|q: int| is_first_match(headers, column, q);
        assert(is_first_match(headers, column, q));
        if q < p {
            assert(!eq_ignore_case(headers[q], column));
        }
        if p < q {
            assert(!eq_ignore_case(headers[p], column));
        }
    }
}

/// The view of the result of turning an input into entries.
pub open spec fn entries_result_view(r: Result<Vec<InputEntry>, String>) -> Result<
    Seq<Result<Seq<char>, Seq<char>>>,
    Seq<char>,
> {
    match r {
        Ok(v) => Ok(entry_views(v@)),
        Err(e) => Err(e@),
    }
}

/// The view of an optional string argument.
pub open spec fn opt_str_view(o: Option<&str>) -> Option<Seq<char>> {
    match o {
        Some(s) => Some(s@),
        None => None,
    }
}

/// The first header equal to `c` up to ASCII case, if any.
fn find_header(headers: &Vec<String>, c: &Vec<char>) -> (r: Option<usize>)
    ensures
        match r {
            Some(p) => is_first_match(views(headers@), c@, p as int),
            None => !exists|p: int| is_first_match(views(headers@), c@, p),
        },
{
    let mut k: usize = 0;
    while k < headers.len()
        invariant
            k <= headers.len(),
            forall|j: int| 0 <= j < k ==> !eq_ignore_case(#[trigger] views(headers@)[j], c@),
        decreases headers.len() - k,
    {
        let h = chars_of(headers[k].as_str());
        if chars_eq_ignore_case(&h, c) {
            return Some(k);
        }
        k += 1;
    }
    proof {
        assert forall|p: int| !is_first_match(views(headers@), c@, p) by {
            if 0 <= p < headers.len() {
                assert(!eq_ignore_case(views(headers@)[p], c@));
            }
        }
    }
    None
}

/// Resolves `column` against the CSV header: the 0-based index of the item
/// column and its label, or why no column is selected.
fn select_column(headers: &Vec<String>, column: Option<&str>) -> (r: Result<(usize, String), String>)
    ensures
        match column_choice(views(headers@), opt_str_view(column)) {
            Ok((idx, label)) => r matches Ok((i, l)) && i == idx && l@ == label,
            Err(m) => r matches Err(e) && e@ == m,
        },
{
    let c = match column {
        None => {
            return Err(String::from_str("CSV input requires --column <name|index>"));
        },
        Some(c) => c,
    };
    match parse_usize(c) {
        None => {
            let cs = chars_of(c);
            match find_header(headers, &cs) {
                Some(p) => {
                    proof {
                        let hs = views(headers@);
                        let q = choose|q: int| is_first_match(hs, c@, q);
                        assert(is_first_match(hs, c@, q));
                        if q < p {
                            assert(!eq_ignore_case(hs[q], c@));
                        }
                        if p < q {
                            assert(!eq_ignore_case(hs[p as int], c@));
                        }
                    }
                    Ok((p, headers[p].clone()))
                },
                None => {
                    let mut msg = String::from_str("column '");
                    msg.append(c);
                    msg.append("' not found in CSV header: ");
                    push_joined(&mut msg, headers, ", ");
                    Err(msg)
                },
            }
        },
        Some(i) => {
            if i == 0 {
                Err(String::from_str("column index must be >= 1 (got '0')"))
            } else if i > headers.len() {
                let mut msg = String::from_str("column index ");
                push_decimal(&mut msg, i as u128);
                msg.append(" is out of range (CSV has ");
                push_decimal(&mut msg, headers.len() as u128);
                msg.append(" columns: ");
                push_joined(&mut msg, headers, ", ");
                msg.append(")");
                Err(msg)
            } else {
                let mut label = String::new();
                push_decimal(&mut label, i as u128);
                Ok((i - 1, label))
            }
        },
    }
}

/// The entry for one data record.
fn record_entry(row: &Vec<String>, line: u128, idx: usize, label: &String) -> (e: InputEntry)
    ensures
        entry_view(e) == csv_entry(views(row@), line as nat, idx as int, label@),
{
    if idx < row.len() {
        let v = trim_chars(&chars_of(row[idx].as_str()));
        if v.len() > 0 {
            Ok(string_of(&v))
        } else {
            let mut msg = String::from_str("CSV line ");
            push_decimal(&mut msg, line);
            msg.append(": empty value in column '");
            msg.append(label.as_str());
            msg.append("'");
            Err(msg)
        }
    } else {
        let mut msg = String::from_str("CSV line ");
        push_decimal(&mut msg, line);
        msg.append(": row has ");
        push_decimal(&mut msg, row.len() as u128);
        msg.append(" column(s), need at least ");
        push_decimal(&mut msg, idx as u128 + 1);
        msg.append(" for column '");
        msg.append(label.as_str());
        msg.append("'");
        Err(msg)
    }
}

/// CSV: one entry per data record of `table`. Records whose selected column
/// is missing or empty become `Err` entries (with the line number) instead of
/// being silently dropped, so callers can emit an error row for them.
pub fn entries_from_table(table: &CsvTable, column: Option<&str>) -> (r: Result<
    Vec<InputEntry>,
    String,
>)
    ensures
        entries_result_view(r) == csv_entries(
            headers_view(table.headers),
            records_view(table.records@),
            message_view(table.failure),
            opt_str_view(column),
        ),
{
    let headers = match &table.headers {
        Err(e) => {
            let mut msg = String::from_str("CSV input has no header row: ");
            msg.append(e.as_str());
            return Err(msg);
        },
        Ok(h) => h,
    };
    let (idx, label) = match select_column(headers, column) {
        Err(m) => {
            return Err(m);
        },
        Ok(choice) => choice,
    };
    if let Some(e) = &table.failure {
        let mut msg = String::from_str("failed to parse CSV line ");
        push_decimal(&mut msg, table.records.len() as u128 + 2);
        msg.append(": ");
        msg.append(e.as_str());
        return Err(msg);
    }
    let ghost recs = records_view(table.records@);
    let mut items: Vec<InputEntry> = Vec::new();
    let mut k: usize = 0;
    while k < table.records.len()
        invariant
            k <= table.records.len(),
            recs == records_view(table.records@),
            entry_views(items@) =~= Seq::new(
                k as nat,
                |j: int| csv_entry(recs[j], (j + 2) as nat, idx as int, label@),
            ),
        decreases table.records.len() - k,
    {
        let e = record_entry(&table.records[k], k as u128 + 2, idx, &label);
        let ghost prev = items@;
        items.push(e);
        assert(entry_views(items@) =~= entry_views(prev).push(entry_view(e)));
        k += 1;
    }
    Ok(items)
}

/// CSV: reads `content` as a CSV table and returns one entry per data row,
/// taking the item from the column that `column` names (a header name, matched
/// ignoring ASCII case, or a 1-based index).
pub fn parse_csv(content: &str, column: Option<&str>) -> (r: Result<Vec<InputEntry>, String>)
    ensures
        entries_result_view(r) == csv_entries(
            csv_header_fields(content@),
            csv_data_records(content@).0,
            csv_data_records(content@).1,
            opt_str_view(column),
        ),
{
    let table = read_csv(content);
    entries_from_table(&table, column)
}

/// Whether `s` ends with `suffix`.
pub open spec fn ends_with(s: Seq<char>, suffix: Seq<char>) -> bool {
    suffix.len() <= s.len() && s.subrange(s.len() - suffix.len(), s.len() as int) == suffix
}

/// Whether an input is read as CSV: a column is given, or the path ends in
/// `.csv` (ignoring ASCII case).
pub open spec fn is_csv_input(path: Seq<char>, column: Option<Seq<char>>) -> bool {
    column is Some || ends_with(lower(path), ".csv"@)
}

/// The entries of an input with the given path and contents: CSV entries when
/// the input is CSV, otherwise one `Ok` entry per plain-text item.
pub open spec fn input_entries(path: Seq<char>, content: Seq<char>, column: Option<Seq<char>>) -> Result<
    Seq<Result<Seq<char>, Seq<char>>>,
    Seq<char>,
> {
    if is_csv_input(path, column) {
        csv_entries(
            csv_header_fields(content),
            csv_data_records(content).0,
            csv_data_records(content).1,
            column,
        )
    } else {
        Ok(text_items(content).map_values(|t: Seq<char>| Ok::<Seq<char>, Seq<char>>(t)))
    }
}

/// Decides whether `s` ends with `suffix`.
fn chars_end_with(s: &Vec<char>, suffix: &Vec<char>) -> (b: bool)
    ensures
        b == ends_with(s@, suffix@),
{
    if suffix.len() > s.len() {
        return false;
    }
    let off = s.len() - suffix.len();
    let mut k: usize = 0;
    while k < suffix.len()
        invariant
            off + suffix.len() == s.len(),
            k <= suffix.len(),
            forall|i: int| 0 <= i < k ==> s@[off + i] == suffix@[i],
        decreases suffix.len() - k,
    {
        if s[off + k] != suffix[k] {
            assert(s@.subrange(off as int, s.len() as int)[k as int] != suffix@[k as int]);
            return false;
        }
        k += 1;
    }
    assert(s@.subrange(off as int, s.len() as int) =~= suffix@);
    true
}

/// The entries of an input, given its path and its contents. Input is treated
/// as CSV when a `column` is given or the path ends in `.csv`; otherwise it is
/// parsed as plain text (one item per line).
pub fn parse_items(path: &str, content: &str, column: Option<&str>) -> (r: Result<
    Vec<InputEntry>,
    String,
>)
    ensures
        entries_result_view(r) == input_entries(path@, content@, opt_str_view(column)),
{
    let lowered = lower_chars(&chars_of(path));
    let is_csv = column.is_some() || chars_end_with(&lowered, &chars_of(".csv"));
    if is_csv {
        parse_csv(content, column)
    } else {
        let items = parse_text(content);
        let mut entries: Vec<InputEntry> = Vec::new();
        let mut k: usize = 0;
        while k < items.len()
            invariant
                k <= items.len(),
                entry_views(entries@) =~= views(items@).take(k as int).map_values(
                    |t: Seq<char>| Ok::<Seq<char>, Seq<char>>(t),
                ),
            decreases items.len() - k,
        {
            let ghost prev = entries@;
            let item = items[k].clone();
            entries.push(Ok(item));
            assert(entry_views(entries@) =~= entry_views(prev).push(Ok(item@)));
            k += 1;
        }
        assert(views(items@).take(items.len() as int) =~= views(items@));
        Ok(entries)
    }
}

} // verus!
