//! The choice of a parser by the declared content type.

use vstd::prelude::*;
use vstd::string::StrSliceExecFns;
use crate::fields::{FieldSeq, ParseError, ParseErrorModel, RequestField, keeps_fields, opt_str, result_error};
use crate::forms::{forms_body, lemma_forms_keeps_fields, spec_forms_body};
use crate::json::{json_body, lemma_json_keeps_fields, spec_json_body};
use crate::parts::{lemma_parts_keep_fields, multipart_form_encoded, multipart_scanned, spec_multipart_body};
use crate::xml::{lemma_xml_keeps_fields, spec_xml_body, xml_body};

verus! {

/// `text` starts with `prefix`.
pub open spec fn has_prefix(text: Seq<char>, prefix: Seq<char>) -> bool {
    prefix.len() <= text.len() && text.subrange(0, prefix.len() as int) == prefix
}

/// `text` ends with `suffix`.
pub open spec fn has_suffix(text: Seq<char>, suffix: Seq<char>) -> bool {
    suffix.len() <= text.len() && text.subrange(text.len() - suffix.len(), text.len() as int) == suffix
}

/// The start of a multipart content type; the boundary follows it.
pub open spec fn multipart_prefix() -> Seq<char> {
    "multipart/form-data; boundary="@
}

/// The content type of a URL-encoded form.
pub open spec fn forms_type() -> Seq<char> {
    "application/x-www-form-urlencoded"@
}

/// The fields and the error where no parser is chosen by the content type:
/// JSON is tried; where that fails, the outcome is that of the forms parser.
pub open spec fn spec_fallback(fields: FieldSeq, body: Seq<u8>) -> (FieldSeq, Option<ParseErrorModel>) {
    let as_json = spec_json_body(fields, body);
    if as_json.1 is None {
        as_json
    } else {
        spec_forms_body(as_json.0, body)
    }
}

/// The fields and the error after a body with this content type.
pub open spec fn spec_parse_body(fields: FieldSeq, content_type: Option<Seq<char>>, body: Seq<u8>) -> (
    FieldSeq,
    Option<ParseErrorModel>,
) {
    match content_type {
        Some(ct) => {
            if has_prefix(ct, multipart_prefix()) {
                spec_multipart_body(fields, ct.subrange(multipart_prefix().len() as int, ct.len() as int), body)
            } else if has_suffix(ct, "/json"@) {
                spec_json_body(fields, body)
            } else if has_suffix(ct, "/xml"@) {
                spec_xml_body(fields, body)
            } else if ct == forms_type() {
                spec_forms_body(fields, body)
            } else {
                spec_fallback(fields, body)
            }
        },
        None => spec_fallback(fields, body),
    }
}

/// A content type that declares a multipart form with a boundary is handled
/// by the multipart parser alone, whatever the body holds: its outcome,
/// success or failure, is the outcome of the parse.
pub proof fn lemma_multipart_takes_precedence(fields: FieldSeq, boundary: Seq<char>, body: Seq<u8>)
    ensures
        spec_parse_body(fields, Some(multipart_prefix() + boundary), body) == spec_multipart_body(
            fields,
            boundary,
            body,
        ),
{
    let ct = multipart_prefix() + boundary;
    assert(ct.subrange(0, multipart_prefix().len() as int) =~= multipart_prefix());
    assert(ct.subrange(multipart_prefix().len() as int, ct.len() as int) =~= boundary);
}

/// With no content type, a body that is not JSON has the outcome of the
/// forms parser, on the fields as they were.
pub proof fn lemma_fallback_to_forms(fields: FieldSeq, body: Seq<u8>)
    requires
        spec_json_body(fields, body).1 is Some,
    ensures
        spec_parse_body(fields, None, body) == spec_forms_body(fields, body),
{
}

/// Parsing a body never removes a field and never overwrites a value,
/// whatever the content type and the body, and whether it succeeds or
/// fails: every field that was in the store is still there, under its key,
/// and the value that it had is the start of the value that it has.
pub proof fn lemma_parse_keeps_fields(fields: FieldSeq, content_type: Option<Seq<char>>, body: Seq<u8>)
    ensures
        keeps_fields(fields, spec_parse_body(fields, content_type, body).0),
{
    lemma_json_keeps_fields(fields, body);
    lemma_xml_keeps_fields(fields, body);
    lemma_forms_keeps_fields(fields, body);
    if content_type is Some {
        let ct = content_type->0;
        let boundary = ct.subrange(multipart_prefix().len() as int, ct.len() as int);
        lemma_parts_keep_fields(fields, multipart_scanned(boundary, body).parts);
    }
}

/// If `text` starts with `prefix`, what follows the prefix.
pub fn strip_prefix<'a>(text: &'a str, prefix: &str) -> (r: Option<&'a str>)
    ensures
        r is Some == has_prefix(text@, prefix@),
        r is Some ==> r->0@ == text@.subrange(prefix@.len() as int, text@.len() as int),
{
    let n = prefix.unicode_len();
    let m = text.unicode_len();
    if n > m {
        return None;
    }
    let mut i: usize = 0;
    while i < n
        invariant
            i <= n <= m,
            n == prefix@.len(),
            m == text@.len(),
            forall|j: int| 0 <= j < i ==> text@[j] == prefix@[j],
        decreases n - i,
    {
        if text.get_char(i) != prefix.get_char(i) {
            assert(text@.subrange(0, n as int)[i as int] == text@[i as int]);
            return None;
        }
        i += 1;
    }
    assert(text@.subrange(0, n as int) =~= prefix@);
    Some(text.substring_char(n, m))
}

/// Whether `text` ends with `suffix`.
pub fn ends_with(text: &str, suffix: &str) -> (b: bool)
    ensures
        b == has_suffix(text@, suffix@),
{
    let n = suffix.unicode_len();
    let m = text.unicode_len();
    if n > m {
        return false;
    }
    let shift = m - n;
    let mut i: usize = 0;
    while i < n
        invariant
            i <= n <= m,
            shift == m - n,
            n == suffix@.len(),
            m == text@.len(),
            forall|j: int| 0 <= j < i ==> text@[shift + j] == suffix@[j],
        decreases n - i,
    {
        if text.get_char(shift + i) != suffix.get_char(i) {
            assert(text@.subrange(m - n, m as int)[i as int] == text@[shift + i]);
            return false;
        }
        i += 1;
    }
    assert(text@.subrange(m - n, m as int) =~= suffix@);
    true
}

/// Turns a request body into fields of the store. The content type chooses
/// the parser: a multipart form with its boundary, then a type that ends in
/// `/json`, then one that ends in `/xml`, then a URL-encoded form; their
/// outcome is final. With any other content type, or none, the body is
/// tried as JSON and then, if that fails, as a URL-encoded form.
pub fn parse_body(args: &mut RequestField, mcontent_type: Option<&str>, body: &[u8]) -> (r: Result<
    (),
    ParseError,
>)
    requires
        old(args).wf(),
    ensures
        final(args).wf(),
        (final(args)@, result_error(r)) == spec_parse_body(old(args)@, opt_str(mcontent_type), body@),
        keeps_fields(old(args)@, final(args)@),
{
    proof {
        lemma_parse_keeps_fields(args@, opt_str(mcontent_type), body@);
    }
    if let Some(content_type) = mcontent_type {
        if let Some(boundary) = strip_prefix(content_type, "multipart/form-data; boundary=") {
            return multipart_form_encoded(boundary, args, body);
        }
        if ends_with(content_type, "/json") {
            return json_body(args, body);
        }
        if ends_with(content_type, "/xml") {
            return xml_body(args, body);
        }
        if String::from_str(content_type) == String::from_str("application/x-www-form-urlencoded") {
            return forms_body(args, body);
        }
    }
    match json_body(args, body) {
        Ok(_) => Ok(()),
        Err(_) => forms_body(args, body),
    }
}

} // verus!
