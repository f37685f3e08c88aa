//! URL-encoded forms: `key=value` pairs separated by `&`.

use vstd::prelude::*;
use vstd::slice::slice_subrange;
use crate::fields::{FieldSeq, ParseError, ParseErrorModel, RequestField, spec_add, result_error, keeps_fields, lemma_add_keeps_fields, lemma_keeps_fields_chain, lemma_keeps_fields_same};
use crate::text::{lossy_text, utf8_lossy};

verus! {

pub const EQUALS: u8 = 0x3d;

pub const AMPERSAND: u8 = 0x26;

pub const PLUS: u8 = 0x2b;

pub const PERCENT: u8 = 0x25;

pub const SPACE: u8 = 0x20;

/// A printable 7-bit character other than the space.
pub open spec fn printable(b: u8) -> bool {
    0x20 < b && b < 0x7f
}

/// The body looks like a URL-encoded form: it holds a `=`, and nothing but
/// printable 7-bit characters.
pub open spec fn spec_is_forms(body: Seq<u8>) -> bool {
    (exists|i: int| 0 <= i < body.len() && #[trigger] body[i] == EQUALS) && (forall|i: int|
        0 <= i < body.len() ==> printable(#[trigger] body[i]))
}

/// The value of a hexadecimal digit.
pub open spec fn hex_value(b: u8) -> Option<u8> {
    if 0x30 <= b <= 0x39 {
        Some((b - 0x30) as u8)
    } else if 0x61 <= b <= 0x66 {
        Some((b - 0x61 + 10) as u8)
    } else if 0x41 <= b <= 0x46 {
        Some((b - 0x41 + 10) as u8)
    } else {
        None
    }
}

/// The bytes that an encoded text stands for: `+` is a space, `%` with two
/// hexadecimal digits is the byte of that value, anything else is itself.
pub open spec fn percent_decoded(s: Seq<u8>) -> Seq<u8>
    decreases s.len(),
{
    if s.len() == 0 {
        Seq::empty()
    } else if s[0] == PLUS {
        seq![SPACE] + percent_decoded(s.skip(1))
    } else if s[0] == PERCENT && s.len() >= 3 && hex_value(s[1]) is Some && hex_value(s[2]) is Some {
        seq![(hex_value(s[1])->0 * 16 + hex_value(s[2])->0) as u8] + percent_decoded(s.skip(3))
    } else {
        seq![s[0]] + percent_decoded(s.skip(1))
    }
}

/// The first position at or after `from` that holds `b`, or the length.
pub open spec fn first_at(s: Seq<u8>, b: u8, from: int) -> int
    decreases s.len() - from,
{
    if from >= s.len() {
        s.len() as int
    } else if s[from] == b {
        from
    } else {
        first_at(s, b, from + 1)
    }
}

/// The fields after one pair: the key is what stands before the first `=`,
/// the value what follows it, both decoded; without a `=` the value is empty.
pub open spec fn spec_add_pair(fields: FieldSeq, pair: Seq<u8>) -> FieldSeq {
    let eq = first_at(pair, EQUALS, 0);
    if eq < pair.len() {
        spec_add(
            fields,
            utf8_lossy(percent_decoded(pair.subrange(0, eq))),
            utf8_lossy(percent_decoded(pair.subrange(eq + 1, pair.len() as int))),
        )
    } else {
        spec_add(fields, utf8_lossy(percent_decoded(pair)), Seq::empty())
    }
}

/// The fields after the pairs of `s` that start at `start` or later. For a
/// `start` within the text the end of its pair lies between it and the
/// length, so the first branch is never taken there.
pub open spec fn spec_pairs_from(fields: FieldSeq, s: Seq<u8>, start: int) -> FieldSeq
    decreases s.len() - start,
{
    let end = first_at(s, AMPERSAND, start);
    if start < 0 || end < start || end > s.len() {
        fields
    } else if end >= s.len() {
        spec_add_pair(fields, s.subrange(start, end))
    } else {
        spec_pairs_from(spec_add_pair(fields, s.subrange(start, end)), s, end + 1)
    }
}

/// The fields and the error after a body that is taken as a form.
pub open spec fn spec_forms_body(fields: FieldSeq, body: Seq<u8>) -> (FieldSeq, Option<ParseErrorModel>) {
    if spec_is_forms(body) {
        (spec_pairs_from(fields, body, 0), None)
    } else {
        (fields, Some(ParseErrorModel::NotFormsEncoded))
    }
}

/// The pairs of a text remove and overwrite nothing.
pub proof fn lemma_pairs_keep_fields(fields: FieldSeq, s: Seq<u8>, start: int)
    ensures
        keeps_fields(fields, spec_pairs_from(fields, s, start)),
    decreases s.len() - start,
{
    let end = first_at(s, AMPERSAND, start);
    if start < 0 || end < start || end > s.len() {
        lemma_keeps_fields_same(fields);
    } else {
        let pair = s.subrange(start, end);
        let eq = first_at(pair, EQUALS, 0);
        let next = spec_add_pair(fields, pair);
        if eq < pair.len() {
            lemma_add_keeps_fields(
                fields,
                utf8_lossy(percent_decoded(pair.subrange(0, eq))),
                utf8_lossy(percent_decoded(pair.subrange(eq + 1, pair.len() as int))),
            );
        } else {
            lemma_add_keeps_fields(fields, utf8_lossy(percent_decoded(pair)), Seq::empty());
        }
        if end < s.len() {
            lemma_pairs_keep_fields(next, s, end + 1);
            lemma_keeps_fields_chain(fields, next, spec_pairs_from(next, s, end + 1));
        }
    }
}

/// A body that is taken as a form removes and overwrites nothing; one that
/// does not look like a form leaves the fields as they were.
pub proof fn lemma_forms_keeps_fields(fields: FieldSeq, body: Seq<u8>)
    ensures
        keeps_fields(fields, spec_forms_body(fields, body).0),
        spec_forms_body(fields, body).1 is Some ==> spec_forms_body(fields, body).0 == fields,
{
    lemma_pairs_keep_fields(fields, body, 0);
    lemma_keeps_fields_same(fields);
}

/// Whether the body looks like a URL-encoded form.
pub fn is_forms_encoded(body: &[u8]) -> (b: bool)
    ensures
        b == spec_is_forms(body@),
{
    let mut seen = false;
    let mut i: usize = 0;
    while i < body.len()
        invariant
            i <= body@.len(),
            seen == (exists|j: int| 0 <= j < i && #[trigger] body@[j] == EQUALS),
            forall|j: int| 0 <= j < i ==> printable(#[trigger] body@[j]),
        decreases body@.len() - i,
    {
        let b = body[i];
        if !(b > 0x20 && b < 0x7f) {
            assert(!printable(body@[i as int]));
            return false;
        }
        if b == EQUALS {
            assert(body@[i as int] == EQUALS);
            seen = true;
        }
        i += 1;
    }
    seen
}

fn hex_digit(b: u8) -> (r: Option<u8>)
    ensures
        r == hex_value(b),
        r is Some ==> r->0 < 16,
{
    if 0x30 <= b && b <= 0x39 {
        Some(b - 0x30)
    } else if 0x61 <= b && b <= 0x66 {
        Some(b - 0x61 + 10)
    } else if 0x41 <= b && b <= 0x46 {
        Some(b - 0x41 + 10)
    } else {
        None
    }
}

/// The first position at or after `from` that holds `b`, or the length.
pub fn find_byte(s: &[u8], b: u8, from: usize) -> (r: usize)
    requires
        from <= s@.len(),
    ensures
        r == first_at(s@, b, from as int),
        from <= r <= s@.len(),
        r < s@.len() ==> s@[r as int] == b,
{
    let mut i: usize = from;
    while i < s.len()
        invariant
            from <= i <= s@.len(),
            first_at(s@, b, i as int) == first_at(s@, b, from as int),
        decreases s@.len() - i,
    {
        if s[i] == b {
            return i;
        }
        i += 1;
    }
    i
}

/// Decodes `+` and `%` escapes.
pub fn url_decode(s: &[u8]) -> (out: Vec<u8>)
    ensures
        out@ == percent_decoded(s@),
{
    let mut out: Vec<u8> = Vec::new();
    let mut i: usize = 0;
    assert(s@.skip(0) =~= s@);
    while i < s.len()
        invariant
            i <= s@.len(),
            out@ + percent_decoded(s@.skip(i as int)) == percent_decoded(s@),
        decreases s@.len() - i,
    {
        let ghost rest = s@.skip(i as int);
        let ghost before = out@;
        let b = s[i];
        assert(rest[0] == b);
        if b == PLUS {
            out.push(SPACE);
            assert(rest.skip(1) =~= s@.skip(i + 1));
            assert(out@ + percent_decoded(rest.skip(1)) =~= before + percent_decoded(rest));
            i += 1;
        } else if b == PERCENT && s.len() - i >= 3 {
            assert(rest[1] == s@[i + 1]);
            assert(rest[2] == s@[i + 2]);
            let high = hex_digit(s[i + 1]);
            let low = hex_digit(s[i + 2]);
            match (high, low) {
                (Some(h), Some(l)) => {
                    out.push(h * 16 + l);
                    assert(rest.skip(3) =~= s@.skip(i + 3));
                    assert(out@ + percent_decoded(rest.skip(3)) =~= before + percent_decoded(rest));
                    i += 3;
                },
                _ => {
                    out.push(b);
                    assert(rest.skip(1) =~= s@.skip(i + 1));
                    assert(out@ + percent_decoded(rest.skip(1)) =~= before + percent_decoded(rest));
                    i += 1;
                },
            }
        } else {
            out.push(b);
            assert(rest.skip(1) =~= s@.skip(i + 1));
            assert(out@ + percent_decoded(rest.skip(1)) =~= before + percent_decoded(rest));
            i += 1;
        }
    }
    assert(out@ + percent_decoded(s@.skip(i as int)) =~= out@);
    out
}

/// Adds one `key=value` pair, decoded, to the store.
pub fn add_pair(args: &mut RequestField, pair: &[u8])
    requires
        old(args).wf(),
    ensures
        final(args).wf(),
        final(args)@ == spec_add_pair(old(args)@, pair@),
{
    let eq = find_byte(pair, EQUALS, 0);
    if eq < pair.len() {
        let key = url_decode(slice_subrange(pair, 0, eq));
        let value = url_decode(slice_subrange(pair, eq + 1, pair.len()));
        args.add(lossy_text(key.as_slice()), lossy_text(value.as_slice()));
    } else {
        let key = url_decode(pair);
        args.add(lossy_text(key.as_slice()), String::new());
    }
}

/// Adds each pair of a URL-encoded text to the store.
pub fn parse_urlencoded_params_bytes(args: &mut RequestField, query: &[u8])
    requires
        old(args).wf(),
    ensures
        final(args).wf(),
        final(args)@ == spec_pairs_from(old(args)@, query@, 0),
{
    let mut start: usize = 0;
    let mut done = false;
    while !done
        invariant
            start <= query@.len(),
            args.wf(),
            done ==> args@ == spec_pairs_from(old(args)@, query@, 0),
            !done ==> spec_pairs_from(args@, query@, start as int) == spec_pairs_from(old(args)@, query@, 0),
        decreases
            (if done {
                0int
            } else {
                query@.len() - start + 1
            }),
    {
        let end = find_byte(query, AMPERSAND, start);
        add_pair(args, slice_subrange(query, start, end));
        if end >= query.len() {
            done = true;
        } else {
            start = end + 1;
        }
    }
}

/// Takes the body as a URL-encoded form where it looks like one, and fails
/// with `NotFormsEncoded` where it does not.
pub fn forms_body(args: &mut RequestField, body: &[u8]) -> (r: Result<(), ParseError>)
    requires
        old(args).wf(),
    ensures
        final(args).wf(),
        (final(args)@, result_error(r)) == spec_forms_body(old(args)@, body@),
{
    if is_forms_encoded(body) {
        parse_urlencoded_params_bytes(args, body);
        Ok(())
    } else {
        Err(ParseError::NotFormsEncoded)
    }
}

} // verus!
