//! Output formats and the byte-level layout of each: CSV, a JSON array,
//! NDJSON (JSON lines) and JSON sequences (RFC 7464).

use vstd::prelude::*;
use crate::text::{chars_eq, chars_of, join, lower, lower_chars, string_of, views};

verus! {

/// Supported output formats.
#[derive(Debug, Clone, Copy, PartialEq, Eq, Structural)]
pub enum OutputFormat {
    /// CSV with a header row.
    Csv,
    /// A single pretty-printed JSON array of records.
    Json,
    /// One JSON object per line (JSON lines / jsonl).
    NdJson,
    /// RFC 7464 JSON sequence: `0x1F` before the first record, records separated by `0x1E`.
    JsonSeq,
}

/// The format that a (case-insensitive) format name selects, if any.
pub open spec fn format_named(name: Seq<char>) -> Option<OutputFormat> {
    let l = lower(name);
    if l == "csv"@ {
        Some(OutputFormat::Csv)
    } else if l == "json"@ {
        Some(OutputFormat::Json)
    } else if l == "ndjson"@ || l == "jsonl"@ || l == "json-lines"@ {
        Some(OutputFormat::NdJson)
    } else if l == "jsonseq"@ || l == "json-seq"@ || l == "json-sequences"@ {
        Some(OutputFormat::JsonSeq)
    } else {
        None
    }
}

/// The message for a name that selects no format.
pub open spec fn unknown_format_message(name: Seq<char>) -> Seq<char> {
    "unknown format '"@ + lower(name) + "' (expected one of: csv, json, ndjson, jsonseq)"@
}

/// The canonical name of a format.
pub open spec fn format_name(f: OutputFormat) -> Seq<char> {
    match f {
        OutputFormat::Csv => "csv"@,
        OutputFormat::Json => "json"@,
        OutputFormat::NdJson => "ndjson"@,
        OutputFormat::JsonSeq => "jsonseq"@,
    }
}

/// Whether `name` (compared exactly) is the word `word`.
fn is_word(name: &Vec<char>, word: &str) -> (b: bool)
    ensures
        b == (name@ == word@),
{
    let w = chars_of(word);
    chars_eq(name, &w)
}

impl OutputFormat {
    /// The canonical name of this format (`csv`, `json`, `ndjson`, `jsonseq`).
    pub fn name(&self) -> (s: &'static str)
        ensures
            s@ == format_name(*self),
    {
        match self {
            OutputFormat::Csv => "csv",
            OutputFormat::Json => "json",
            OutputFormat::NdJson => "ndjson",
            OutputFormat::JsonSeq => "jsonseq",
        }
    }

    /// Parses a format name, ignoring ASCII case. Accepted names: `csv`,
    /// `json`, `ndjson` / `jsonl` / `json-lines`, `jsonseq` / `json-seq` /
    /// `json-sequences`.
    pub fn from_name(s: &str) -> (r: Result<OutputFormat, String>)
        ensures
            match format_named(s@) {
                Some(f) => r == Ok::<OutputFormat, String>(f),
                None => r is Err && r->Err_0@ == unknown_format_message(s@),
            },
    {
        let l = lower_chars(&chars_of(s));
        if is_word(&l, "csv") {
            Ok(OutputFormat::Csv)
        } else if is_word(&l, "json") {
            Ok(OutputFormat::Json)
        } else if is_word(&l, "ndjson") || is_word(&l, "jsonl") || is_word(&l, "json-lines") {
            Ok(OutputFormat::NdJson)
        } else if is_word(&l, "jsonseq") || is_word(&l, "json-seq") || is_word(
            &l,
            "json-sequences",
        ) {
            Ok(OutputFormat::JsonSeq)
        } else {
            let mut msg = String::from_str("unknown format '");
            msg.append(string_of(&l).as_str());
            msg.append("' (expected one of: csv, json, ndjson, jsonseq)");
            Err(msg)
        }
    }
}

impl core::str::FromStr for OutputFormat {
    type Err = String;

    fn from_str(s: &str) -> (r: Result<OutputFormat, String>)
        ensures
            match format_named(s@) {
                Some(f) => r == Ok::<OutputFormat, String>(f),
                None => r is Err && r->Err_0@ == unknown_format_message(s@),
            },
    {
        OutputFormat::from_name(s)
    }
}

/// Value parser for `--format`: the format that `s` names, ignoring ASCII
/// case, or the message that lists the accepted names.
pub fn parse_format(s: &str) -> (r: Result<OutputFormat, String>)
    ensures
        match format_named(s@) {
            Some(f) => r == Ok::<OutputFormat, String>(f),
            None => r is Err && r->Err_0@ == unknown_format_message(s@),
        },
{
    OutputFormat::from_name(s)
}

/// Parsing a format's canonical name gives that format back.
pub proof fn format_name_round_trip(f: OutputFormat)
    ensures
        format_named(format_name(f)) == Some(f),
{
    reveal_strlit("csv");
    reveal_strlit("json");
    reveal_strlit("ndjson");
    reveal_strlit("jsonl");
    reveal_strlit("json-lines");
    reveal_strlit("jsonseq");
    reveal_strlit("json-seq");
    reveal_strlit("json-sequences");
    let n = format_name(f);
    assert(lower(n) =~= n);
}

/// A result row: a fixed list of named columns, rendered as flat strings for
/// CSV output.
pub trait Record {
    /// The column names.
    spec fn header_view() -> Seq<Seq<char>>;

    /// The flat column values of this row.
    spec fn row_view(&self) -> Seq<Seq<char>>;

    /// Column headers, in the same order as the values returned by `row`.
    fn header() -> (h: Vec<String>)
        ensures
            views(h@) == Self::header_view(),
    ;

    /// Flat string values for CSV output, one per header column. By
    /// convention the last column is `error` (empty on success).
    fn row(&self) -> (r: Vec<String>)
        ensures
            views(r@) == self.row_view(),
            r@.len() == Self::header_view().len(),
    ;
}

/// The process exit code for a run: `0` when it completed with no failed
/// row, `1` when some rows failed or the run stopped with an error.
pub open spec fn exit_code_of(result: Result<usize, String>) -> u8 {
    match result {
        Ok(failed) => if failed == 0 { 0 } else { 1 },
        Err(_) => 1,
    }
}

/// The exit code for a run result: `0` when every row succeeded, `1`
/// otherwise.
pub fn exit_code(result: &Result<usize, String>) -> (code: u8)
    ensures
        code == exit_code_of(*result),
{
    match result {
        Ok(failed) => if *failed == 0 { 0 } else { 1 },
        Err(_) => 1,
    }
}

/// The byte views of a list of byte vectors.
pub open spec fn byte_views(v: Seq<Vec<u8>>) -> Seq<Seq<u8>> {
    v.map_values(|b: Vec<u8>| b@)
}

/// Line feed.
pub open spec fn lf() -> u8 {
    0x0a
}

/// RFC 7464 record separator.
pub open spec fn rs() -> u8 {
    0x1e
}

/// The byte that starts a non-empty JSON sequence.
pub open spec fn seq_start() -> u8 {
    0x1f
}

/// The NDJSON document of the given JSON texts: each text followed by a line feed.
pub open spec fn json_lines(texts: Seq<Seq<u8>>) -> Seq<u8>
    decreases texts.len(),
{
    if texts.len() == 0 {
        seq![]
    } else {
        json_lines(texts.drop_last()) + texts.last() + seq![lf()]
    }
}

/// The JSON sequence of the given JSON texts: empty for no texts, otherwise
/// `0x1F`, then the texts separated by single `0x1E` bytes.
pub open spec fn json_seq(texts: Seq<Seq<u8>>) -> Seq<u8> {
    if texts.len() == 0 {
        seq![]
    } else {
        seq![seq_start()] + join(texts, seq![rs()])
    }
}

/// Appends all of `b` to `out`.
fn append_bytes(out: &mut Vec<u8>, b: &Vec<u8>)
    ensures
        final(out)@ == old(out)@ + b@,
{
    let mut k: usize = 0;
    while k < b.len()
        invariant
            k <= b.len(),
            out@ == old(out)@ + b@.take(k as int),
        decreases b.len() - k,
    {
        out.push(b[k]);
        assert(b@.take(k + 1) =~= b@.take(k as int).push(b@[k as int]));
        k += 1;
    }
    assert(b@.take(b.len() as int) =~= b@);
}

/// The JSON-array document: the pretty-printed array `array` followed by a
/// line feed.
pub fn json_array_document(array: &Vec<u8>) -> (doc: Vec<u8>)
    ensures
        doc@ == array@ + seq![lf()],
{
    let mut doc: Vec<u8> = Vec::new();
    append_bytes(&mut doc, array);
    doc.push(0x0a);
    assert(doc@ =~= array@ + seq![lf()]);
    doc
}

/// The NDJSON document: each record's JSON text on a line of its own.
pub fn json_lines_document(texts: &Vec<Vec<u8>>) -> (doc: Vec<u8>)
    ensures
        doc@ == json_lines(byte_views(texts@)),
{
    let mut doc: Vec<u8> = Vec::new();
    let mut k: usize = 0;
    while k < texts.len()
        invariant
            k <= texts.len(),
            doc@ == json_lines(byte_views(texts@).take(k as int)),
        decreases texts.len() - k,
    {
        append_bytes(&mut doc, &texts[k]);
        doc.push(0x0a);
        assert(byte_views(texts@).take(k + 1).drop_last() =~= byte_views(texts@).take(k as int));
        k += 1;
    }
    assert(byte_views(texts@).take(texts.len() as int) =~= byte_views(texts@));
    doc
}

/// The JSON-sequence document (RFC 7464): `0x1F` before the first record and
/// a single `0x1E` between records; nothing at all for no records.
pub fn json_seq_document(texts: &Vec<Vec<u8>>) -> (doc: Vec<u8>)
    ensures
        doc@ == json_seq(byte_views(texts@)),
{
    let mut doc: Vec<u8> = Vec::new();
    if texts.len() == 0 {
        return doc;
    }
    doc.push(0x1f);
    let mut k: usize = 0;
    while k < texts.len()
        invariant
            k <= texts.len(),
            texts.len() > 0,
            doc@ == seq![seq_start()] + join(byte_views(texts@).take(k as int), seq![rs()]),
        decreases texts.len() - k,
    {
        if k > 0 {
            doc.push(0x1e);
        }
        append_bytes(&mut doc, &texts[k]);
        assert(byte_views(texts@).take(k + 1).drop_last() =~= byte_views(texts@).take(k as int));
        proof {
            if k == 0 {
                assert(join(byte_views(texts@).take(0), seq![rs()]) =~= Seq::<u8>::empty());
            }
        }
        assert(doc@ =~= seq![seq_start()] + join(byte_views(texts@).take(k + 1), seq![rs()]));
        k += 1;
    }
    assert(byte_views(texts@).take(texts.len() as int) =~= byte_views(texts@));
    doc
}

/// The string views of each record of a table.
pub open spec fn table_view(records: Seq<Vec<String>>) -> Seq<Seq<Seq<char>>> {
    records.map_values(|r: Vec<String>| views(r@))
}

/// Whether every record has as many fields as the first one.
pub open spec fn same_width(records: Seq<Seq<Seq<char>>>) -> bool {
    forall|i: int| 0 <= i < records.len() ==> #[trigger] records[i].len() == records[0].len()
}

/// The bytes that a default `csv::Writer` (comma delimiter, `\n` record
/// terminator, quotes only where a field needs them) produces for `records`
/// written one after the other.
pub uninterp spec fn csv_written(records: Seq<Seq<Seq<char>>>) -> Seq<u8>;

/// Writes `records` with a default `csv::Writer` into memory
/// (`Writer::from_writer`, `Writer::write_record`, `Writer::into_inner`).
/// Claims: the writer succeeds exactly when every record has as many fields
/// as the first one (the writer is not flexible, and writing to a `Vec`
/// cannot fail otherwise), and its bytes are then `csv_written(records)`.
#[verifier::external_body]
fn write_csv(records: &Vec<Vec<String>>) -> (out: Option<Vec<u8>>)
    ensures
        out is Some <==> same_width(table_view(records@)),
        out matches Some(bytes) ==> bytes@ == csv_written(table_view(records@)),
{
    let mut writer = csv::Writer::from_writer(Vec::new());
    for record in records {
        if writer.write_record(record).is_err() {
            return None;
        }
    }
    writer.into_inner().ok()
}

/// The CSV document of a header row and data rows, when every data row has
/// as many fields as the header (`None` otherwise).
pub fn csv_table_document(header: &Vec<String>, rows: &Vec<Vec<String>>) -> (doc: Option<Vec<u8>>)
    ensures
        match doc {
            Some(bytes) => {
                &&& same_width(seq![views(header@)] + table_view(rows@))
                &&& bytes@ == csv_written(seq![views(header@)] + table_view(rows@))
            },
            None => !same_width(seq![views(header@)] + table_view(rows@)),
        },
{
    let mut table: Vec<Vec<String>> = Vec::new();
    table.push(header.clone());
    let mut k: usize = 0;
    while k < rows.len()
        invariant
            k <= rows.len(),
            table_view(table@) == seq![views(header@)] + table_view(rows@.take(k as int)),
        decreases rows.len() - k,
    {
        let row = rows[k].clone();
        let ghost prev = table@;
        table.push(row);
        assert(table_view(rows@.take(k + 1)) =~= table_view(rows@.take(k as int)).push(
            views(rows@[k as int]@),
        ));
        assert(table_view(table@) =~= table_view(prev).push(views(rows@[k as int]@)));
        k += 1;
    }
    assert(rows@.take(rows.len() as int) =~= rows@);
    write_csv(&table)
}

/// The table that CSV output holds: the header row, then one row per record.
pub open spec fn csv_table<R: Record>(records: Seq<R>) -> Seq<Seq<Seq<char>>> {
    seq![R::header_view()] + records.map_values(|r: R| r.row_view())
}

/// The CSV table of `n` records has `n + 1` rows: the header row first, then
/// the row of record `k` as table row `k + 1`, for every record in order.
pub proof fn csv_table_has_every_record<R: Record>(records: Seq<R>)
    ensures
        csv_table(records).len() == records.len() + 1,
        csv_table(records)[0] == R::header_view(),
        forall|k: int| 0 <= k < records.len() ==> csv_table(records)[k + 1] == (
        #[trigger] records[k]).row_view(),
{
}

/// The CSV document of `records`: the header row, then one row per record.
pub fn csv_document<R: Record>(records: &[R]) -> (doc: Vec<u8>)
    ensures
        doc@ == csv_written(csv_table(records@)),
{
    let header = R::header();
    let mut rows: Vec<Vec<String>> = Vec::new();
    let mut k: usize = 0;
    while k < records.len()
        invariant
            k <= records.len(),
            views(header@) == R::header_view(),
            seq![views(header@)] + table_view(rows@) == csv_table(records@.take(k as int)),
            forall|i: int|
                0 <= i < rows@.len() ==> (#[trigger] rows@[i])@.len() == R::header_view().len(),
        decreases records.len() - k,
    {
        let row = records[k].row();
        let ghost prev = rows@;
        let ghost row_views = views(row@);
        rows.push(row);
        assert(csv_table(records@.take(k + 1)) =~= csv_table(records@.take(k as int)).push(
            records@[k as int].row_view(),
        ));
        assert(table_view(rows@) =~= table_view(prev).push(row_views));
        k += 1;
    }
    assert(records@.take(records.len() as int) =~= records@);
    let ghost full = seq![views(header@)] + table_view(rows@);
    assert(same_width(full)) by {
        assert forall|i: int| 0 <= i < full.len() implies #[trigger] full[i].len() == full[0].len() by {
            if i > 0 {
                assert(full[i] == views(rows@[i - 1]@));
            }
        }
    }
    match csv_table_document(&header, &rows) {
        Some(bytes) => bytes,
        None => Vec::new(),
    }
}

/// How many bytes of `s` equal `b`.
pub open spec fn occurrences(s: Seq<u8>, b: u8) -> nat
    decreases s.len(),
{
    if s.len() == 0 {
        0
    } else {
        occurrences(s.drop_last(), b) + if s.last() == b {
            1nat
        } else {
            0nat
        }
    }
}

/// Occurrences add up over concatenation.
proof fn lemma_occurrences_concat(s: Seq<u8>, t: Seq<u8>, b: u8)
    ensures
        occurrences(s + t, b) == occurrences(s, b) + occurrences(t, b),
    decreases t.len(),
{
    if t.len() == 0 {
        assert(s + t =~= s);
    } else {
        lemma_occurrences_concat(s, t.drop_last(), b);
        assert((s + t).drop_last() =~= s + t.drop_last());
    }
}

/// A sequence that never holds `b` has no occurrence of it.
proof fn lemma_occurrences_absent(s: Seq<u8>, b: u8)
    requires
        forall|i: int| 0 <= i < s.len() ==> s[i] != b,
    ensures
        occurrences(s, b) == 0,
    decreases s.len(),
{
    if s.len() > 0 {
        lemma_occurrences_absent(s.drop_last(), b);
    }
}

/// Joining parts that hold no separator byte gives one separator between
/// each two consecutive parts.
proof fn lemma_join_separators(parts: Seq<Seq<u8>>, b: u8)
    requires
        parts.len() > 0,
        forall|i: int, j: int| 0 <= i < parts.len() && 0 <= j < parts[i].len() ==> parts[i][j] != b,
    ensures
        occurrences(join(parts, seq![b]), b) == parts.len() - 1,
    decreases parts.len(),
{
    lemma_occurrences_absent(parts.last(), b);
    if parts.len() == 1 {
        lemma_occurrences_absent(parts[0], b);
    } else {
        let rest = parts.drop_last();
        assert forall|i: int, j: int| 0 <= i < rest.len() && 0 <= j < rest[i].len() implies rest[i][j]
            != b by {
            assert(rest[i] == parts[i]);
        }
        lemma_join_separators(rest, b);
        lemma_occurrences_concat(join(rest, seq![b]), seq![b], b);
        lemma_occurrences_concat(join(rest, seq![b]) + seq![b], parts.last(), b);
        assert(occurrences(seq![b], b) == 1) by {
            assert(seq![b].drop_last() =~= Seq::<u8>::empty());
            assert(occurrences(Seq::<u8>::empty(), b) == 0);
        }
    }
}

/// RFC 7464 framing: when no record text holds a `0x1E` byte (JSON text never
/// holds that control character raw), a JSON sequence of records is empty for
/// no records, and otherwise starts with `0x1F` and holds exactly one `0x1E`
/// between each two consecutive records.
pub proof fn json_seq_framing(texts: Seq<Seq<u8>>)
    requires
        forall|i: int, j: int| 0 <= i < texts.len() && 0 <= j < texts[i].len() ==> texts[i][j] != rs(),
    ensures
        texts.len() == 0 ==> json_seq(texts).len() == 0,
        texts.len() > 0 ==> json_seq(texts)[0] == seq_start() && occurrences(json_seq(texts), rs())
            == texts.len() - 1,
{
    if texts.len() > 0 {
        lemma_join_separators(texts, rs());
        lemma_occurrences_concat(seq![seq_start()], join(texts, seq![rs()]), rs());
        assert(occurrences(seq![seq_start()], rs()) == 0) by {
            assert(seq![seq_start()].drop_last() =~= Seq::<u8>::empty());
            assert(occurrences(Seq::<u8>::empty(), rs()) == 0);
        }
    }
}

/// NDJSON framing: when no record text holds a line feed (compact JSON text
/// never does), the document holds exactly one line per record and, unless
/// empty, ends with a line feed.
pub proof fn json_lines_framing(texts: Seq<Seq<u8>>)
    requires
        forall|i: int, j: int| 0 <= i < texts.len() && 0 <= j < texts[i].len() ==> texts[i][j] != lf(),
    ensures
        occurrences(json_lines(texts), lf()) == texts.len(),
        texts.len() > 0 ==> json_lines(texts).last() == lf(),
    decreases texts.len(),
{
    if texts.len() > 0 {
        let rest = texts.drop_last();
        assert forall|i: int, j: int| 0 <= i < rest.len() && 0 <= j < rest[i].len() implies rest[i][j]
            != lf() by {
            assert(rest[i] == texts[i]);
        }
        json_lines_framing(rest);
        lemma_occurrences_absent(texts.last(), lf());
        lemma_occurrences_concat(json_lines(rest), texts.last(), lf());
        lemma_occurrences_concat(json_lines(rest) + texts.last(), seq![lf()], lf());
        assert(occurrences(seq![lf()], lf()) == 1) by {
            assert(seq![lf()].drop_last() =~= Seq::<u8>::empty());
            assert(occurrences(Seq::<u8>::empty(), lf()) == 0);
        }
    }
}

/// The exit code is `0` exactly for a run that completed with no failed row.
pub proof fn exit_code_zero_iff_no_failure(result: Result<usize, String>)
    ensures
        exit_code_of(result) == 0 <==> result == Ok::<usize, String>(0),
{
}

} // verus!
