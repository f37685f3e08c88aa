//! Multipart forms: each part becomes a field under its name.

use vstd::prelude::*;
use crate::fields::{FieldSeq, ParseError, ParseErrorModel, RequestField, spec_add, result_error, opt_text, keeps_fields, lemma_add_keeps_fields, lemma_keeps_fields_chain, lemma_keeps_fields_same};
use crate::text::{lossy_text, utf8_lossy};

verus! {

/// What the multipart reader found in a body: the name and the bytes of each
/// part that it read, and the message of the error that stopped it, if any.
#[derive(Debug)]
pub struct MultipartScan {
    pub entries: Vec<(String, Vec<u8>)>,
    pub error: Option<String>,
}

/// The model of a part: its name and its bytes.
pub type PartSeq = Seq<(Seq<char>, Seq<u8>)>;

/// The model of the parts.
pub open spec fn part_views(entries: Seq<(String, Vec<u8>)>) -> PartSeq {
    Seq::new(entries.len(), |i: int| (entries[i].0@, entries[i].1@))
}

/// The model of a [`MultipartScan`]: its parts, and its error's message.
pub struct MultipartScanModel {
    pub parts: PartSeq,
    pub error: Option<Seq<char>>,
}

impl View for MultipartScan {
    type V = MultipartScanModel;

    open spec fn view(&self) -> MultipartScanModel {
        MultipartScanModel { parts: part_views(self.entries@), error: opt_text(self.error) }
    }
}

/// What `multipart::server::Multipart` reads from this body with this
/// boundary: the parts, and the message of its error.
pub uninterp spec fn multipart_scanned(boundary: Seq<char>, body: Seq<u8>) -> MultipartScanModel;

/// Makes a `multipart::server::Multipart` of the body and walks it with
/// `foreach_entry`, copying each part's name and all of its data; the error
/// that `foreach_entry` returns becomes the text of its `Display`. The
/// contract only names what was read.
#[verifier::external_body]
pub(crate) fn scan_multipart(boundary: &str, body: &[u8]) -> (r: MultipartScan)
    ensures
        r@ == multipart_scanned(boundary@, body@),
{
    let mut entries = Vec::new();
    let walked = multipart::server::Multipart::with_body(body, boundary).foreach_entry(|mut entry| {
        let mut content = Vec::new();
        let _ = std::io::Read::read_to_end(&mut entry.data, &mut content);
        entries.push((entry.headers.name.to_string(), content));
    });
    MultipartScan { entries, error: walked.err().map(|e| e.to_string()) }
}

/// The fields after each part is added under its name, its bytes read as text.
pub open spec fn spec_add_parts(fields: FieldSeq, parts: PartSeq) -> FieldSeq
    decreases parts.len(),
{
    if parts.len() == 0 {
        fields
    } else {
        spec_add_parts(spec_add(fields, parts[0].0, utf8_lossy(parts[0].1)), parts.skip(1))
    }
}

/// Adding parts removes and overwrites nothing.
pub proof fn lemma_parts_keep_fields(fields: FieldSeq, parts: PartSeq)
    ensures
        keeps_fields(fields, spec_add_parts(fields, parts)),
    decreases parts.len(),
{
    if parts.len() == 0 {
        lemma_keeps_fields_same(fields);
    } else {
        let next = spec_add(fields, parts[0].0, utf8_lossy(parts[0].1));
        lemma_add_keeps_fields(fields, parts[0].0, utf8_lossy(parts[0].1));
        lemma_parts_keep_fields(next, parts.skip(1));
        lemma_keeps_fields_chain(fields, next, spec_add_parts(next, parts.skip(1)));
    }
}

/// The fields and the error after a scan: the parts that were read are
/// added, then the reader's error is reported.
pub open spec fn spec_multipart_fields(fields: FieldSeq, scan: MultipartScanModel) -> (
    FieldSeq,
    Option<ParseErrorModel>,
) {
    (
        spec_add_parts(fields, scan.parts),
        match scan.error {
            Some(text) => Some(ParseErrorModel::InvalidMultipart(text)),
            None => None,
        },
    )
}

/// Adds the parts of a scan to the store, and fails with the reader's error
/// where it had one.
pub fn multipart_fields(args: &mut RequestField, scan: &MultipartScan) -> (r: Result<(), ParseError>)
    requires
        old(args).wf(),
    ensures
        final(args).wf(),
        (final(args)@, result_error(r)) == spec_multipart_fields(old(args)@, scan@),
{
    let ghost parts = part_views(scan.entries@);
    let mut i: usize = 0;
    assert(parts.skip(0) =~= parts);
    while i < scan.entries.len()
        invariant
            i <= scan.entries@.len(),
            args.wf(),
            parts == part_views(scan.entries@),
            spec_add_parts(args@, parts.skip(i as int)) == spec_add_parts(old(args)@, parts),
        decreases scan.entries@.len() - i,
    {
        assert(parts.skip(i as int)[0] == parts[i as int]);
        assert(parts.skip(i as int).skip(1) =~= parts.skip(i + 1));
        let name = scan.entries[i].0.clone();
        let content = lossy_text(scan.entries[i].1.as_slice());
        args.add(name, content);
        i += 1;
    }
    match &scan.error {
        Some(text) => Err(ParseError::InvalidMultipart(text.clone())),
        None => Ok(()),
    }
}

/// The fields and the error after a multipart body.
pub open spec fn spec_multipart_body(fields: FieldSeq, boundary: Seq<char>, body: Seq<u8>) -> (
    FieldSeq,
    Option<ParseErrorModel>,
) {
    spec_multipart_fields(fields, multipart_scanned(boundary, body))
}

/// Splits the body at the boundary and adds each part under its name.
pub fn multipart_form_encoded(boundary: &str, args: &mut RequestField, body: &[u8]) -> (r: Result<
    (),
    ParseError,
>)
    requires
        old(args).wf(),
    ensures
        final(args).wf(),
        (final(args)@, result_error(r)) == spec_multipart_body(old(args)@, boundary@, body@),
{
    let scan = scan_multipart(boundary, body);
    multipart_fields(args, &scan)
}

} // verus!
