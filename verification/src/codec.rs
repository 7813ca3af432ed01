//! The tabular wire format: one header line, then one line per record
//! with the six columns `local, foreign, guesses_local_total,
//! guesses_local_correct, guesses_foreign_total,
//! guesses_foreign_correct`, comma-separated. Text columns carry no
//! separator or quote characters; the round trip is proved.

use vstd::prelude::*;

use crate::numeric::{
    dec_digits, is_digit, lemma_dec_digits_all_digits, lemma_dec_round_trip, parse_u32_spec,
};
use crate::translation::Translation;
use crate::VocabStoreError;
use vstd::string::StrSliceExecFns;
use vstd::string::StringExecFns;

verus! {

/// The view of a record as plain column values.
pub open spec fn record_of(t: Translation) -> (Seq<char>, Seq<char>, u32, u32, u32, u32) {
    (
        t.local@,
        t.foreign@,
        t.guesses_local_total,
        t.guesses_local_correct,
        t.guesses_foreign_total,
        t.guesses_foreign_correct,
    )
}

/// The views of a whole record sequence.
pub open spec fn records_of(ts: Seq<Translation>) -> Seq<(Seq<char>, Seq<char>, u32, u32, u32, u32)> {
    ts.map_values(|t: Translation| record_of(t))
}

/// No occurrence of `c` in `s`.
pub open spec fn free_of(s: Seq<char>, c: char) -> bool {
    forall|i: int| 0 <= i < s.len() ==> (#[trigger] s[i]) != c
}

/// Characters a text column cannot carry: the column and line
/// separators, and the quote the format reserves.
pub open spec fn reserved_char(c: char) -> bool {
    c == ',' || c == '\n' || c == '\r' || c == '"'
}

pub open spec fn clean_text(s: Seq<char>) -> bool {
    forall|i: int| 0 <= i < s.len() ==> !reserved_char(#[trigger] s[i])
}

/// A record whose text columns the format can carry.
pub open spec fn encodable(t: Translation) -> bool {
    clean_text(t.local@) && clean_text(t.foreign@)
}

/// Split `s` at every occurrence of `sep`. Always at least one piece;
/// `n` separators give `n + 1` pieces.
pub open spec fn split_on(s: Seq<char>, sep: char) -> Seq<Seq<char>>
    decreases s.len(),
{
    if s.len() == 0 {
        seq![Seq::<char>::empty()]
    } else if s[0] == sep {
        seq![Seq::<char>::empty()] + split_on(s.drop_first(), sep)
    } else {
        let rest = split_on(s.drop_first(), sep);
        seq![seq![s[0]] + rest[0]] + rest.drop_first()
    }
}

pub proof fn lemma_split_len(s: Seq<char>, sep: char)
    ensures
        split_on(s, sep).len() >= 1,
    decreases s.len(),
{
    if s.len() > 0 {
        lemma_split_len(s.drop_first(), sep);
    }
}

/// A separator-free sequence splits into itself alone.
pub proof fn lemma_split_no_sep(s: Seq<char>, sep: char)
    requires
        free_of(s, sep),
    ensures
        split_on(s, sep) == seq![s],
    decreases s.len(),
{
    if s.len() == 0 {
        assert(split_on(s, sep) =~~= seq![s]);
    } else {
        assert(free_of(s.drop_first(), sep));
        lemma_split_no_sep(s.drop_first(), sep);
        assert(seq![s[0]] + s.drop_first() =~= s);
        assert(split_on(s, sep) =~~= seq![s]);
    }
}

/// Splitting at the first separator peels off the prefix before it.
pub proof fn lemma_split_concat(a: Seq<char>, rest: Seq<char>, sep: char)
    requires
        free_of(a, sep),
    ensures
        split_on(a + seq![sep] + rest, sep) == seq![a] + split_on(rest, sep),
    decreases a.len(),
{
    let s = a + seq![sep] + rest;
    if a.len() == 0 {
        assert(s =~= seq![sep] + rest);
        assert(s[0] == sep);
        assert(s.drop_first() =~= rest);
        assert(split_on(s, sep) =~~= seq![a] + split_on(rest, sep));
    } else {
        assert(free_of(a.drop_first(), sep));
        lemma_split_concat(a.drop_first(), rest, sep);
        assert(s[0] == a[0]);
        assert(s[0] != sep);
        assert(s.drop_first() =~= a.drop_first() + seq![sep] + rest);
        let r = split_on(s.drop_first(), sep);
        assert(r == seq![a.drop_first()] + split_on(rest, sep));
        assert(r[0] == a.drop_first());
        assert(seq![s[0]] + r[0] =~= a);
        assert(r.drop_first() =~= split_on(rest, sep));
        assert(split_on(s, sep) =~~= seq![a] + split_on(rest, sep));
    }
}

/// One record as one line: the six columns, comma-separated.
pub open spec fn record_line(t: Translation) -> Seq<char> {
    t.local@ + seq![','] + t.foreign@ + seq![','] + dec_digits(t.guesses_local_total as nat)
        + seq![','] + dec_digits(t.guesses_local_correct as nat) + seq![','] + dec_digits(
        t.guesses_foreign_total as nat,
    ) + seq![','] + dec_digits(t.guesses_foreign_correct as nat)
}

/// What one line parses to: exactly six columns, the last four
/// counters; anything else is malformed.
pub open spec fn parse_line_spec(s: Seq<char>) -> Option<
    (Seq<char>, Seq<char>, u32, u32, u32, u32),
> {
    let cols = split_on(s, ',');
    if cols.len() == 6 {
        match (
            parse_u32_spec(cols[2]),
            parse_u32_spec(cols[3]),
            parse_u32_spec(cols[4]),
            parse_u32_spec(cols[5]),
        ) {
            (Some(lt), Some(lc), Some(ft), Some(fc)) => Some((cols[0], cols[1], lt, lc, ft, fc)),
            _ => None,
        }
    } else {
        None
    }
}

proof fn lemma_free_concat(a: Seq<char>, b: Seq<char>, c: char)
    requires
        free_of(a, c),
        free_of(b, c),
    ensures
        free_of(a + b, c),
{
    assert forall|i: int| 0 <= i < (a + b).len() implies (#[trigger] (a + b)[i]) != c by {
        if i < a.len() {
            assert((a + b)[i] == a[i]);
        } else {
            assert((a + b)[i] == b[i - a.len()]);
        }
    }
}

proof fn lemma_digits_free(n: nat, c: char)
    requires
        !is_digit(c),
    ensures
        free_of(dec_digits(n), c),
{
    lemma_dec_digits_all_digits(n);
}

proof fn lemma_clean_free(s: Seq<char>, c: char)
    requires
        clean_text(s),
        reserved_char(c),
    ensures
        free_of(s, c),
{
}

/// A record line holds no line separator, so lines split cleanly.
pub proof fn lemma_record_line_free_of_newline(t: Translation)
    requires
        encodable(t),
    ensures
        free_of(record_line(t), '\n'),
        record_line(t).len() > 0,
{
    let nl = '\n';
    lemma_clean_free(t.local@, nl);
    lemma_clean_free(t.foreign@, nl);
    lemma_digits_free(t.guesses_local_total as nat, nl);
    lemma_digits_free(t.guesses_local_correct as nat, nl);
    lemma_digits_free(t.guesses_foreign_total as nat, nl);
    lemma_digits_free(t.guesses_foreign_correct as nat, nl);
    assert(free_of(seq![','], nl));
    lemma_free_concat(t.local@, seq![','], nl);
    lemma_free_concat(t.local@ + seq![','], t.foreign@, nl);
    lemma_free_concat(t.local@ + seq![','] + t.foreign@, seq![','], nl);
    lemma_free_concat(
        t.local@ + seq![','] + t.foreign@ + seq![','],
        dec_digits(t.guesses_local_total as nat),
        nl,
    );
    lemma_free_concat(
        t.local@ + seq![','] + t.foreign@ + seq![','] + dec_digits(t.guesses_local_total as nat),
        seq![','],
        nl,
    );
    lemma_free_concat(
        t.local@ + seq![','] + t.foreign@ + seq![','] + dec_digits(t.guesses_local_total as nat)
            + seq![','],
        dec_digits(t.guesses_local_correct as nat),
        nl,
    );
    lemma_free_concat(
        t.local@ + seq![','] + t.foreign@ + seq![','] + dec_digits(t.guesses_local_total as nat)
            + seq![','] + dec_digits(t.guesses_local_correct as nat),
        seq![','],
        nl,
    );
    lemma_free_concat(
        t.local@ + seq![','] + t.foreign@ + seq![','] + dec_digits(t.guesses_local_total as nat)
            + seq![','] + dec_digits(t.guesses_local_correct as nat) + seq![','],
        dec_digits(t.guesses_foreign_total as nat),
        nl,
    );
    lemma_free_concat(
        t.local@ + seq![','] + t.foreign@ + seq![','] + dec_digits(t.guesses_local_total as nat)
            + seq![','] + dec_digits(t.guesses_local_correct as nat) + seq![','] + dec_digits(
            t.guesses_foreign_total as nat,
        ),
        seq![','],
        nl,
    );
    lemma_free_concat(
        t.local@ + seq![','] + t.foreign@ + seq![','] + dec_digits(t.guesses_local_total as nat)
            + seq![','] + dec_digits(t.guesses_local_correct as nat) + seq![','] + dec_digits(
            t.guesses_foreign_total as nat,
        ) + seq![','],
        dec_digits(t.guesses_foreign_correct as nat),
        nl,
    );
}

/// Parsing the line of an encodable record gives its columns back.
#[verifier::rlimit(60)]
pub proof fn lemma_line_round_trip(t: Translation)
    requires
        encodable(t),
    ensures
        parse_line_spec(record_line(t)) == Some(record_of(t)),
{
    let sep = ',';
    let f0 = t.local@;
    let f1 = t.foreign@;
    let d2 = dec_digits(t.guesses_local_total as nat);
    let d3 = dec_digits(t.guesses_local_correct as nat);
    let d4 = dec_digits(t.guesses_foreign_total as nat);
    let d5 = dec_digits(t.guesses_foreign_correct as nat);
    lemma_clean_free(f0, sep);
    lemma_clean_free(f1, sep);
    lemma_digits_free(t.guesses_local_total as nat, sep);
    lemma_digits_free(t.guesses_local_correct as nat, sep);
    lemma_digits_free(t.guesses_foreign_total as nat, sep);
    lemma_digits_free(t.guesses_foreign_correct as nat, sep);

    let r4 = d4 + seq![sep] + d5;
    let r3 = d3 + seq![sep] + r4;
    let r2 = d2 + seq![sep] + r3;
    let r1 = f1 + seq![sep] + r2;
    assert(record_line(t) =~= f0 + seq![sep] + r1);
    lemma_split_concat(f0, r1, sep);
    assert(r1 =~= f1 + seq![sep] + r2);
    lemma_split_concat(f1, r2, sep);
    assert(r2 =~= d2 + seq![sep] + r3);
    lemma_split_concat(d2, r3, sep);
    assert(r3 =~= d3 + seq![sep] + r4);
    lemma_split_concat(d3, r4, sep);
    lemma_split_concat(d4, d5, sep);
    lemma_split_no_sep(d5, sep);
    let cols = split_on(record_line(t), sep);
    assert(cols =~~= seq![f0, f1, d2, d3, d4, d5]);
    lemma_dec_digits_all_digits(t.guesses_local_total as nat);
    lemma_dec_digits_all_digits(t.guesses_local_correct as nat);
    lemma_dec_digits_all_digits(t.guesses_foreign_total as nat);
    lemma_dec_digits_all_digits(t.guesses_foreign_correct as nat);
    lemma_dec_round_trip(t.guesses_local_total as nat);
    lemma_dec_round_trip(t.guesses_local_correct as nat);
    lemma_dec_round_trip(t.guesses_foreign_total as nat);
    lemma_dec_round_trip(t.guesses_foreign_correct as nat);
}

/// The header line the writer emits.
pub open spec fn header() -> Seq<char> {
    "local,foreign,guesses_local_total,guesses_local_correct,guesses_foreign_total,guesses_foreign_correct"@
}

/// The record lines, each terminated by a line separator.
pub open spec fn stream_of(ts: Seq<Translation>) -> Seq<char>
    decreases ts.len(),
{
    if ts.len() == 0 {
        Seq::<char>::empty()
    } else {
        record_line(ts[0]) + seq!['\n'] + stream_of(ts.drop_first())
    }
}

/// A whole written document: the header line, then the record lines.
pub open spec fn output_of(ts: Seq<Translation>) -> Seq<char> {
    header() + seq!['\n'] + stream_of(ts)
}

/// Parse a list of lines: empty lines are skipped, any malformed line
/// spoils the whole read.
pub open spec fn parse_rows(lines: Seq<Seq<char>>) -> Option<
    Seq<(Seq<char>, Seq<char>, u32, u32, u32, u32)>,
>
    decreases lines.len(),
{
    if lines.len() == 0 {
        Some(Seq::<(Seq<char>, Seq<char>, u32, u32, u32, u32)>::empty())
    } else if lines[0].len() == 0 {
        parse_rows(lines.drop_first())
    } else {
        match (parse_line_spec(lines[0]), parse_rows(lines.drop_first())) {
            (Some(rec), Some(rest)) => Some(seq![rec] + rest),
            _ => None,
        }
    }
}

/// What reading a whole document yields: the first line is the header
/// and carries no data, every later non-empty line is one record.
pub open spec fn read_spec(s: Seq<char>) -> Option<
    Seq<(Seq<char>, Seq<char>, u32, u32, u32, u32)>,
> {
    parse_rows(split_on(s, '\n').drop_first())
}

proof fn lemma_rows_round_trip(ts: Seq<Translation>)
    requires
        forall|i: int| 0 <= i < ts.len() ==> encodable(#[trigger] ts[i]),
    ensures
        parse_rows(split_on(stream_of(ts), '\n')) == Some(records_of(ts)),
    decreases ts.len(),
{
    let nl = '\n';
    let target = records_of(ts);
    if ts.len() == 0 {
        let lines = split_on(stream_of(ts), nl);
        assert(lines =~~= seq![Seq::<char>::empty()]);
        assert(lines[0].len() == 0);
        assert(lines.drop_first() =~= Seq::<Seq<char>>::empty());
        assert(parse_rows(lines.drop_first()) == Some(
            Seq::<(Seq<char>, Seq<char>, u32, u32, u32, u32)>::empty(),
        ));
        assert(parse_rows(lines) == parse_rows(lines.drop_first()));
        assert(target =~= Seq::<(Seq<char>, Seq<char>, u32, u32, u32, u32)>::empty());
    } else {
        let head = ts[0];
        let rest = ts.drop_first();
        assert(forall|i: int| 0 <= i < rest.len() ==> encodable(#[trigger] rest[i]));
        lemma_rows_round_trip(rest);
        lemma_record_line_free_of_newline(head);
        assert(stream_of(ts) =~= record_line(head) + seq![nl] + stream_of(rest));
        lemma_split_concat(record_line(head), stream_of(rest), nl);
        let lines = split_on(stream_of(ts), nl);
        assert(lines == seq![record_line(head)] + split_on(stream_of(rest), nl));
        assert(lines[0] == record_line(head));
        assert(lines.drop_first() =~= split_on(stream_of(rest), nl));
        lemma_line_round_trip(head);
        let rest_target = records_of(rest);
        assert(parse_rows(lines) == Some(seq![record_of(head)] + rest_target));
        assert(target =~= seq![record_of(head)] + rest_target);
    }
}

/// The full round trip: reading back a written document yields the
/// same records, in the same order, with identical column values.
pub proof fn lemma_stream_round_trip(ts: Seq<Translation>)
    requires
        forall|i: int| 0 <= i < ts.len() ==> encodable(#[trigger] ts[i]),
    ensures
        read_spec(output_of(ts)) == Some(records_of(ts)),
{
    let nl = '\n';
    reveal_strlit(
        "local,foreign,guesses_local_total,guesses_local_correct,guesses_foreign_total,guesses_foreign_correct",
    );
    assert(free_of(header(), nl));
    lemma_split_concat(header(), stream_of(ts), nl);
    assert(split_on(output_of(ts), nl).drop_first() =~~= split_on(stream_of(ts), nl));
    lemma_rows_round_trip(ts);
}

/// The first occurrence of `target` in `s` within `[from, end)`.
fn find_char(s: &str, from: usize, end: usize, target: char) -> (r: Option<usize>)
    requires
        from <= end <= s@.len(),
    ensures
        match r {
            Option::Some(k) => {
                &&& from <= k < end
                &&& s@[k as int] == target
                &&& forall|j: int| from <= j < k ==> s@[j] != target
            },
            Option::None => forall|j: int| from <= j < end ==> s@[j] != target,
        },
{
    let mut i: usize = from;
    while i < end
        invariant
            from <= i <= end <= s@.len(),
            forall|j: int| from <= j < i ==> s@[j] != target,
        decreases end - i,
    {
        if s.get_char(i) == target {
            return Some(i);
        }
        i = i + 1;
    }
    None
}

/// Whether a text column is free of the reserved characters.
fn text_is_clean(s: &str) -> (b: bool)
    ensures
        b == clean_text(s@),
{
    let n: usize = s.unicode_len();
    let mut i: usize = 0;
    while i < n
        invariant
            i <= n,
            n == s@.len(),
            forall|j: int| 0 <= j < i ==> !reserved_char(#[trigger] s@[j]),
        decreases n - i,
    {
        let c = s.get_char(i);
        if c == ',' || c == '\n' || c == '\r' || c == '"' {
            proof {
                assert(reserved_char(s@[i as int]));
            }
            return false;
        }
        i = i + 1;
    }
    true
}

/// Encode one record as one line, or nothing if a text column carries
/// a reserved character.
#[verifier::rlimit(60)]
pub fn encode_record(t: &Translation) -> (r: Option<String>)
    ensures
        encodable(*t) ==> (r matches Some(s) && s@ == record_line(*t)),
        !encodable(*t) ==> r is None,
{
    if !text_is_clean(t.local.as_str()) || !text_is_clean(t.foreign.as_str()) {
        return None;
    }
    proof {
        reveal_strlit(",");
        assert(","@ =~= seq![',']);
    }
    let mut out: String = String::new();
    out.append(t.local.as_str());
    out.append(",");
    out.append(t.foreign.as_str());
    out.append(",");
    let d2 = crate::numeric::fmt_u32(t.guesses_local_total);
    out.append(d2.as_str());
    out.append(",");
    let d3 = crate::numeric::fmt_u32(t.guesses_local_correct);
    out.append(d3.as_str());
    out.append(",");
    let d4 = crate::numeric::fmt_u32(t.guesses_foreign_total);
    out.append(d4.as_str());
    out.append(",");
    let d5 = crate::numeric::fmt_u32(t.guesses_foreign_correct);
    out.append(d5.as_str());
    proof {
        assert(out@ =~= record_line(*t));
    }
    Some(out)
}

/// `stream_of` grows line by line at the back.
proof fn lemma_stream_snoc(ts: Seq<Translation>, t: Translation)
    ensures
        stream_of(ts.push(t)) == stream_of(ts) + record_line(t) + seq!['\n'],
    decreases ts.len(),
{
    let nl = '\n';
    if ts.len() == 0 {
        assert(ts.push(t)[0] == t);
        assert(ts.push(t).drop_first() =~= Seq::<Translation>::empty());
        assert(stream_of(ts) == Seq::<char>::empty());
        assert(stream_of(ts.push(t).drop_first()) == Seq::<char>::empty());
        assert(stream_of(ts.push(t)) == record_line(t) + seq![nl] + stream_of(
            ts.push(t).drop_first(),
        ));
        assert(stream_of(ts.push(t)) =~= stream_of(ts) + record_line(t) + seq![nl]);
    } else {
        assert(ts.push(t)[0] == ts[0]);
        assert(ts.push(t).drop_first() =~= ts.drop_first().push(t));
        lemma_stream_snoc(ts.drop_first(), t);
        assert(stream_of(ts.push(t)) =~= stream_of(ts) + record_line(t) + seq![nl]);
    }
}

/// Write a whole document: the header line, then one line per record,
/// in order. Nothing is written if any record has a text column the
/// format cannot carry.
pub fn write_records(ts: &Vec<Translation>) -> (r: Option<String>)
    ensures
        (forall|i: int| 0 <= i < ts@.len() ==> encodable(#[trigger] ts@[i])) ==> (r matches Some(
            s,
        ) && s@ == output_of(ts@)),
        !(forall|i: int| 0 <= i < ts@.len() ==> encodable(#[trigger] ts@[i])) ==> r is None,
{
    proof {
        reveal_strlit("\n");
        assert("\n"@ =~= seq!['\n']);
    }
    let mut out: String =
        "local,foreign,guesses_local_total,guesses_local_correct,guesses_foreign_total,guesses_foreign_correct".to_owned();
    out.append("\n");
    proof {
        assert(ts@.take(0) =~= Seq::<Translation>::empty());
        assert(out@ =~= header() + seq!['\n'] + stream_of(ts@.take(0)));
    }
    let mut i: usize = 0;
    while i < ts.len()
        invariant
            i <= ts@.len(),
            forall|j: int| 0 <= j < i ==> encodable(#[trigger] ts@[j]),
            out@ == header() + seq!['\n'] + stream_of(ts@.take(i as int)),
        decreases ts@.len() - i,
    {
        match encode_record(&ts[i]) {
            Option::None => {
                return None;
            },
            Option::Some(line) => {
                out.append(line.as_str());
                out.append("\n");
                proof {
                    reveal_strlit("\n");
                    assert("\n"@ =~= seq!['\n']);
                    lemma_stream_snoc(ts@.take(i as int), ts@[i as int]);
                    assert(ts@.take(i + 1) =~= ts@.take(i as int).push(ts@[i as int]));
                    assert(out@ =~= header() + seq!['\n'] + stream_of(ts@.take(i + 1)));
                }
            },
        }
        i = i + 1;
    }
    proof {
        assert(ts@.take(ts@.len() as int) =~= ts@);
    }
    Some(out)
}

/// Parse the character range `[start, end)` of `input` as one record
/// line.
#[verifier::rlimit(100)]
fn parse_record_range(input: &str, start: usize, end: usize) -> (r: Option<Translation>)
    requires
        start <= end <= input@.len(),
    ensures
        match parse_line_spec(input@.subrange(start as int, end as int)) {
            Option::Some(rec) => (r matches Some(t) && record_of(t) == rec),
            Option::None => r is None,
        },
{
    let ghost line = input@.subrange(start as int, end as int);
    let ghost sep = ',';

    let c1 = match find_char(input, start, end, ',') {
        Option::Some(k) => k,
        Option::None => {
            proof {
                assert(free_of(line, sep));
                lemma_split_no_sep(line, sep);
            }
            return None;
        },
    };
    let ghost f0 = input@.subrange(start as int, c1 as int);
    let ghost r1 = input@.subrange(c1 + 1, end as int);
    proof {
        assert(free_of(f0, sep));
        assert(line =~= f0 + seq![sep] + r1);
        lemma_split_concat(f0, r1, sep);
    }

    let c2 = match find_char(input, c1 + 1, end, ',') {
        Option::Some(k) => k,
        Option::None => {
            proof {
                assert(free_of(r1, sep));
                lemma_split_no_sep(r1, sep);
                assert(split_on(line, sep).len() == 2);
            }
            return None;
        },
    };
    let ghost f1 = input@.subrange(c1 + 1, c2 as int);
    let ghost r2 = input@.subrange(c2 + 1, end as int);
    proof {
        assert(free_of(f1, sep));
        assert(r1 =~= f1 + seq![sep] + r2);
        lemma_split_concat(f1, r2, sep);
    }

    let c3 = match find_char(input, c2 + 1, end, ',') {
        Option::Some(k) => k,
        Option::None => {
            proof {
                assert(free_of(r2, sep));
                lemma_split_no_sep(r2, sep);
                assert(split_on(line, sep).len() == 3);
            }
            return None;
        },
    };
    let ghost f2 = input@.subrange(c2 + 1, c3 as int);
    let ghost r3 = input@.subrange(c3 + 1, end as int);
    proof {
        assert(free_of(f2, sep));
        assert(r2 =~= f2 + seq![sep] + r3);
        lemma_split_concat(f2, r3, sep);
    }

    let c4 = match find_char(input, c3 + 1, end, ',') {
        Option::Some(k) => k,
        Option::None => {
            proof {
                assert(free_of(r3, sep));
                lemma_split_no_sep(r3, sep);
                assert(split_on(line, sep).len() == 4);
            }
            return None;
        },
    };
    let ghost f3 = input@.subrange(c3 + 1, c4 as int);
    let ghost r4 = input@.subrange(c4 + 1, end as int);
    proof {
        assert(free_of(f3, sep));
        assert(r3 =~= f3 + seq![sep] + r4);
        lemma_split_concat(f3, r4, sep);
    }

    let c5 = match find_char(input, c4 + 1, end, ',') {
        Option::Some(k) => k,
        Option::None => {
            proof {
                assert(free_of(r4, sep));
                lemma_split_no_sep(r4, sep);
                assert(split_on(line, sep).len() == 5);
            }
            return None;
        },
    };
    let ghost f4 = input@.subrange(c4 + 1, c5 as int);
    let ghost f5 = input@.subrange(c5 + 1, end as int);
    proof {
        assert(free_of(f4, sep));
        assert(r4 =~= f4 + seq![sep] + f5);
        lemma_split_concat(f4, f5, sep);
    }

    if let Option::Some(c6) = find_char(input, c5 + 1, end, ',') {
        proof {
            let g5 = input@.subrange(c5 + 1, c6 as int);
            let r6 = input@.subrange(c6 + 1, end as int);
            assert(free_of(g5, sep));
            assert(f5 =~= g5 + seq![sep] + r6);
            lemma_split_concat(g5, r6, sep);
            lemma_split_len(r6, sep);
            assert(split_on(line, sep).len() >= 7);
        }
        return None;
    }
    proof {
        assert(free_of(f5, sep));
        lemma_split_no_sep(f5, sep);
        assert(split_on(line, sep) =~~= seq![f0, f1, f2, f3, f4, f5]);
    }

    let lt = match crate::numeric::parse_counter(input, c2 + 1, c3) {
        Option::Some(v) => v,
        Option::None => {
            return None;
        },
    };
    let lc = match crate::numeric::parse_counter(input, c3 + 1, c4) {
        Option::Some(v) => v,
        Option::None => {
            return None;
        },
    };
    let ft = match crate::numeric::parse_counter(input, c4 + 1, c5) {
        Option::Some(v) => v,
        Option::None => {
            return None;
        },
    };
    let fc = match crate::numeric::parse_counter(input, c5 + 1, end) {
        Option::Some(v) => v,
        Option::None => {
            return None;
        },
    };

    let local: String = input.substring_char(start, c1).to_owned();
    let foreign: String = input.substring_char(c1 + 1, c2).to_owned();
    Some(
        Translation {
            local,
            foreign,
            guesses_local_total: lt,
            guesses_local_correct: lc,
            guesses_foreign_total: ft,
            guesses_foreign_correct: fc,
        },
    )
}

/// Read a whole document: skip the header line, skip blank lines,
/// parse every other line as one record. The first malformed line
/// spoils the read.
#[verifier::loop_isolation(false)]
pub fn read_records(input: &str) -> (r: Result<Vec<Translation>, VocabStoreError>)
    ensures
        match read_spec(input@) {
            Option::Some(rs) => {
                &&& r matches Ok(v)
                &&& v@.len() == rs.len()
                &&& forall|i: int| 0 <= i < rs.len() ==> record_of(#[trigger] v@[i]) == rs[i]
            },
            Option::None => r == Err::<Vec<Translation>, VocabStoreError>(
                VocabStoreError::MalformedRecord,
            ),
        },
{
    let ghost nl = '\n';
    let n: usize = input.unicode_len();

    let mut pos: usize;
    match find_char(input, 0, n, '\n') {
        Option::Some(k) => {
            proof {
                let head_line = input@.subrange(0, k as int);
                assert(free_of(head_line, nl));
                assert(input@ =~= head_line + seq![nl] + input@.subrange(k + 1, n as int));
                lemma_split_concat(head_line, input@.subrange(k + 1, n as int), nl);
                assert(split_on(input@, nl).drop_first() =~= split_on(
                    input@.subrange(k + 1, n as int),
                    nl,
                ));
            }
            pos = k + 1;
        },
        Option::None => {
            proof {
                assert(free_of(input@, nl));
                lemma_split_no_sep(input@, nl);
                assert(split_on(input@, nl).drop_first() =~= Seq::<Seq<char>>::empty());
                assert(read_spec(input@) == Some(
                    Seq::<(Seq<char>, Seq<char>, u32, u32, u32, u32)>::empty(),
                ));
            }
            return Ok(Vec::new());
        },
    }

    let mut acc: Vec<Translation> = Vec::new();
    proof {
        assert(records_of(acc@) =~= Seq::<(Seq<char>, Seq<char>, u32, u32, u32, u32)>::empty());
    }
    while pos < n
        invariant
            pos <= n,
            n == input@.len(),
            match parse_rows(split_on(input@.subrange(pos as int, n as int), '\n')) {
                Option::Some(tail) => read_spec(input@) == Some(records_of(acc@) + tail),
                Option::None => read_spec(input@) is None,
            },
            forall|i: int| 0 <= i < acc@.len() ==> record_of(#[trigger] acc@[i]) == records_of(
                acc@,
            )[i],
        decreases n - pos,
    {
        let ghost rem = input@.subrange(pos as int, n as int);
        match find_char(input, pos, n, '\n') {
            Option::Some(k) => {
                let ghost this_line = input@.subrange(pos as int, k as int);
                let ghost rest = input@.subrange(k + 1, n as int);
                proof {
                    assert(free_of(this_line, nl));
                    assert(rem =~= this_line + seq![nl] + rest);
                    lemma_split_concat(this_line, rest, nl);
                    assert(split_on(rem, nl) == seq![this_line] + split_on(rest, nl));
                    assert(split_on(rem, nl)[0] == this_line);
                    assert(split_on(rem, nl).drop_first() =~= split_on(rest, nl));
                    lemma_split_len(rest, nl);
                }
                if k > pos {
                    match parse_record_range(input, pos, k) {
                        Option::None => {
                            proof {
                                assert(parse_rows(split_on(rem, nl)) is None);
                            }
                            return Err(VocabStoreError::MalformedRecord);
                        },
                        Option::Some(t) => {
                            proof {
                                let rec = parse_line_spec(this_line)->Some_0;
                                if parse_rows(split_on(rest, nl)) is Some {
                                    let tail2 = parse_rows(split_on(rest, nl))->Some_0;
                                    assert(parse_rows(split_on(rem, nl)) == Some(
                                        seq![rec] + tail2,
                                    ));
                                    assert(records_of(acc@.push(t)) =~= records_of(acc@)
                                        + seq![record_of(t)]);
                                    assert(records_of(acc@) + (seq![rec] + tail2) =~= records_of(
                                        acc@.push(t),
                                    ) + tail2);
                                } else {
                                    assert(parse_rows(split_on(rem, nl)) is None);
                                }
                            }
                            acc.push(t);
                        },
                    }
                } else {
                    proof {
                        assert(this_line.len() == 0);
                        assert(parse_rows(split_on(rem, nl)) == parse_rows(split_on(rest, nl)));
                    }
                }
                pos = k + 1;
            },
            Option::None => {
                proof {
                    assert(free_of(rem, nl));
                    lemma_split_no_sep(rem, nl);
                    assert(split_on(rem, nl) == seq![rem]);
                    assert(split_on(rem, nl)[0] == rem);
                    assert(split_on(rem, nl).drop_first() =~= Seq::<Seq<char>>::empty());
                    assert(parse_rows(Seq::<Seq<char>>::empty()) == Some(
                        Seq::<(Seq<char>, Seq<char>, u32, u32, u32, u32)>::empty(),
                    ));
                    assert(rem.len() > 0);
                }
                match parse_record_range(input, pos, n) {
                    Option::None => {
                        proof {
                            assert(parse_rows(split_on(rem, nl)) is None);
                        }
                        return Err(VocabStoreError::MalformedRecord);
                    },
                    Option::Some(t) => {
                        proof {
                            let rec = parse_line_spec(rem)->Some_0;
                            assert(parse_rows(split_on(rem, nl)) == Some(
                                seq![rec] + Seq::<(Seq<char>, Seq<char>, u32, u32, u32, u32)>::empty(),
                            ));
                            assert(records_of(acc@.push(t)) =~= records_of(acc@)
                                + seq![record_of(t)]);
                            assert(records_of(acc@) + (seq![rec] + Seq::<
                                (Seq<char>, Seq<char>, u32, u32, u32, u32),
                            >::empty()) =~= records_of(acc@.push(t)));
                        }
                        acc.push(t);
                        return Ok(acc);
                    },
                }
            },
        }
    }
    proof {
        let rem = input@.subrange(pos as int, n as int);
        assert(rem.len() == 0);
        assert(split_on(rem, nl) =~~= seq![Seq::<char>::empty()]);
        assert(split_on(rem, nl)[0].len() == 0);
        assert(split_on(rem, nl).drop_first() =~= Seq::<Seq<char>>::empty());
        assert(parse_rows(split_on(rem, nl).drop_first()) == Some(
            Seq::<(Seq<char>, Seq<char>, u32, u32, u32, u32)>::empty(),
        ));
        assert(parse_rows(split_on(rem, nl)) == parse_rows(split_on(rem, nl).drop_first()));
        assert(records_of(acc@) + Seq::<(Seq<char>, Seq<char>, u32, u32, u32, u32)>::empty()
            =~= records_of(acc@));
    }
    Ok(acc)
}

} // verus!

