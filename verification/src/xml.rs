//! XML bodies: a stack of open elements, driven by the lexer's tokens.

use vstd::prelude::*;
use crate::fields::{FieldSeq, ParseError, ParseErrorModel, RequestField, spec_add, result_error, opt_str, opt_text, keeps_fields, lemma_add_keeps_fields, lemma_keeps_fields_chain, lemma_keeps_fields_same};
use crate::text::{decimal, decimal_digits, lossy_text, trim_text, trimmed, utf8_lossy};

verus! {

/// One token of an XML document, as far as the flattening reads it.
#[derive(Debug)]
pub enum XmlToken {
    /// A processing instruction, a comment, a declaration or a DTD marker.
    Skipped,
    /// An entity declared with a literal value.
    EntityValue { name: String, value: String },
    /// An entity declared with a system identifier.
    EntitySystem { name: String, system_id: String },
    /// An entity declared with a public and a system identifier.
    EntityPublic { name: String, public_id: String, system_id: String },
    /// The start of an element: `<name`.
    ElementStart { local: String },
    /// The end of a start tag: `>`.
    ElementEndOpen,
    /// The end of an element without content: `/>`.
    ElementEndEmpty,
    /// A closing tag: `</name>`.
    ElementEndClose { local: String },
    /// An attribute of the element that is being opened.
    Attribute { local: String, value: String },
    /// Text between tags.
    Text { text: String },
    /// A CDATA section.
    Cdata { text: String },
}

/// The model of an [`XmlToken`]: the same token over sequences of characters.
pub enum XmlTokenModel {
    Skipped,
    EntityValue { name: Seq<char>, value: Seq<char> },
    EntitySystem { name: Seq<char>, system_id: Seq<char> },
    EntityPublic { name: Seq<char>, public_id: Seq<char>, system_id: Seq<char> },
    ElementStart { local: Seq<char> },
    ElementEndOpen,
    ElementEndEmpty,
    ElementEndClose { local: Seq<char> },
    Attribute { local: Seq<char>, value: Seq<char> },
    Text { text: Seq<char> },
    Cdata { text: Seq<char> },
}

impl View for XmlToken {
    type V = XmlTokenModel;

    open spec fn view(&self) -> XmlTokenModel {
        match self {
            XmlToken::Skipped => XmlTokenModel::Skipped,
            XmlToken::EntityValue { name, value } => XmlTokenModel::EntityValue { name: name@, value: value@ },
            XmlToken::EntitySystem { name, system_id } => XmlTokenModel::EntitySystem {
                name: name@,
                system_id: system_id@,
            },
            XmlToken::EntityPublic { name, public_id, system_id } => XmlTokenModel::EntityPublic {
                name: name@,
                public_id: public_id@,
                system_id: system_id@,
            },
            XmlToken::ElementStart { local } => XmlTokenModel::ElementStart { local: local@ },
            XmlToken::ElementEndOpen => XmlTokenModel::ElementEndOpen,
            XmlToken::ElementEndEmpty => XmlTokenModel::ElementEndEmpty,
            XmlToken::ElementEndClose { local } => XmlTokenModel::ElementEndClose { local: local@ },
            XmlToken::Attribute { local, value } => XmlTokenModel::Attribute { local: local@, value: value@ },
            XmlToken::Text { text } => XmlTokenModel::Text { text: text@ },
            XmlToken::Cdata { text } => XmlTokenModel::Cdata { text: text@ },
        }
    }
}

/// What the lexer made of a document: the tokens before its first error, and
/// that error's message if there was one.
#[derive(Debug)]
pub struct XmlLex {
    pub tokens: Vec<XmlToken>,
    pub error: Option<String>,
}

/// The model of an [`XmlLex`]: its tokens, and its error's message.
pub struct XmlLexModel {
    pub tokens: Seq<XmlTokenModel>,
    pub error: Option<Seq<char>>,
}

impl View for XmlLex {
    type V = XmlLexModel;

    open spec fn view(&self) -> XmlLexModel {
        XmlLexModel {
            tokens: Seq::new(self.tokens@.len(), |i: int| self.tokens@[i]@),
            error: opt_text(self.error),
        }
    }
}

/// The model of the element stack: for each open element its name and the
/// number of texts, CDATA sections and child elements seen directly in it.
pub type FrameSeq = Seq<(Seq<char>, nat)>;

/// The model of an element stack.
pub open spec fn frames(stack: Seq<(String, u64)>) -> FrameSeq {
    Seq::new(stack.len(), |i: int| (stack[i].0@, stack[i].1 as nat))
}

/// What a counter adds to a path: its digits, or nothing where it is 0.
pub open spec fn counter_suffix(count: nat) -> Seq<char> {
    if count > 0 {
        decimal_digits(count)
    } else {
        Seq::empty()
    }
}

/// The path of a stack: each frame's name and counter suffix, outermost first.
pub open spec fn spec_xml_path(st: FrameSeq) -> Seq<char>
    decreases st.len(),
{
    if st.len() == 0 {
        Seq::empty()
    } else {
        spec_xml_path(st.drop_last()) + st.last().0 + counter_suffix(st.last().1)
    }
}

/// The stack with the counter of its innermost frame raised by one.
pub open spec fn bump_top(st: FrameSeq) -> FrameSeq {
    if st.len() == 0 {
        st
    } else {
        st.drop_last().push((st.last().0, st.last().1 + 1))
    }
}

/// Every counter of the stack is at most `bound`.
pub open spec fn counters_below(st: FrameSeq, bound: nat) -> bool {
    forall|i: int| 0 <= i < st.len() ==> (#[trigger] st[i]).1 <= bound
}

/// The state after a token: the fields, the stack, and the error that ends the parse.
pub struct XmlOutcome {
    pub fields: FieldSeq,
    pub stack: FrameSeq,
    pub error: Option<ParseErrorModel>,
}

/// The message for a closing tag that does not match the open element.
pub open spec fn mismatch_text(open: Seq<char>, given: Seq<char>) -> Seq<char> {
    "wrong closing element, expected "@ + open + ", got "@ + given
}

/// Closing the innermost element, by `/>` (`None`) or by a closing tag with a name.
pub open spec fn spec_close(fields: FieldSeq, st: FrameSeq, close_name: Option<Seq<char>>) -> XmlOutcome {
    if st.len() == 0 {
        XmlOutcome {
            fields,
            stack: st,
            error: Some(ParseErrorModel::InvalidXml("extraneous element end"@)),
        }
    } else {
        let rest = st.drop_last();
        let open = st.last().0;
        if close_name is Some && close_name->0 != open {
            XmlOutcome {
                fields,
                stack: rest,
                error: Some(ParseErrorModel::InvalidXml(mismatch_text(open, close_name->0))),
            }
        } else if st.last().1 == 0 {
            XmlOutcome {
                fields: spec_add(fields, spec_xml_path(rest) + open + seq!['1'], Seq::empty()),
                stack: rest,
                error: None,
            }
        } else {
            XmlOutcome { fields, stack: rest, error: None }
        }
    }
}

/// The state after one token.
pub open spec fn spec_step(fields: FieldSeq, st: FrameSeq, token: XmlTokenModel) -> XmlOutcome {
    match token {
        XmlTokenModel::Skipped => XmlOutcome { fields, stack: st, error: None },
        XmlTokenModel::ElementEndOpen => XmlOutcome { fields, stack: st, error: None },
        XmlTokenModel::EntityValue { name, value } => XmlOutcome {
            fields: spec_add(fields, "_XMLENTITY_VALUE_"@ + name, value),
            stack: st,
            error: None,
        },
        XmlTokenModel::EntitySystem { name, system_id } => XmlOutcome {
            fields: spec_add(fields, "_XMLENTITY_SYSTEMID_"@ + name, system_id),
            stack: st,
            error: None,
        },
        XmlTokenModel::EntityPublic { name, public_id, system_id } => XmlOutcome {
            fields: spec_add(
                fields,
                "_XMLENTITY_PUBLICID_"@ + name,
                public_id + seq!['/'] + system_id,
            ),
            stack: st,
            error: None,
        },
        XmlTokenModel::ElementStart { local } => XmlOutcome {
            fields,
            stack: bump_top(st).push((local, 0nat)),
            error: None,
        },
        XmlTokenModel::ElementEndEmpty => spec_close(fields, st, None),
        XmlTokenModel::ElementEndClose { local } => spec_close(fields, st, Some(local)),
        XmlTokenModel::Attribute { local, value } => XmlOutcome {
            fields: spec_add(fields, spec_xml_path(st) + local, value),
            stack: st,
            error: None,
        },
        XmlTokenModel::Text { text } => {
            let t = trimmed(text);
            if t.len() > 0 {
                XmlOutcome {
                    fields: spec_add(fields, spec_xml_path(bump_top(st)), t),
                    stack: bump_top(st),
                    error: None,
                }
            } else {
                XmlOutcome { fields, stack: st, error: None }
            }
        },
        XmlTokenModel::Cdata { text } => XmlOutcome {
            fields: spec_add(fields, spec_xml_path(bump_top(st)), text),
            stack: bump_top(st),
            error: None,
        },
    }
}

/// The state after the tokens, in their order, up to the first that fails.
pub open spec fn spec_run(fields: FieldSeq, st: FrameSeq, tokens: Seq<XmlTokenModel>) -> XmlOutcome
    decreases tokens.len(),
{
    if tokens.len() == 0 {
        XmlOutcome { fields, stack: st, error: None }
    } else {
        let o = spec_step(fields, st, tokens[0]);
        if o.error is Some {
            o
        } else {
            spec_run(o.fields, o.stack, tokens.skip(1))
        }
    }
}

/// The fields and the error after a whole document: the tokens run on an
/// empty stack; then the lexer's error, if any; then every element must be closed.
pub open spec fn spec_flatten(fields: FieldSeq, lexed: XmlLexModel) -> (
    FieldSeq,
    Option<ParseErrorModel>,
) {
    let o = spec_run(fields, Seq::empty(), lexed.tokens);
    if o.error is Some {
        (o.fields, o.error)
    } else if lexed.error is Some {
        (o.fields, Some(ParseErrorModel::InvalidXml(lexed.error->0)))
    } else if o.stack.len() > 0 {
        (o.fields, Some(ParseErrorModel::InvalidXml("premature end of document"@)))
    } else {
        (o.fields, None)
    }
}

/// The declaration of an entity is recorded as a field of its own and
/// changes nothing else: the stack, and so the path and the handling of
/// every later token, stay as they were, and the parse goes on.
pub proof fn lemma_entity_is_only_recorded(fields: FieldSeq, st: FrameSeq, name: Seq<char>, value: Seq<char>)
    ensures
        spec_step(fields, st, XmlTokenModel::EntityValue { name, value }) == (XmlOutcome {
            fields: spec_add(fields, "_XMLENTITY_VALUE_"@ + name, value),
            stack: st,
            error: None,
        }),
        spec_step(fields, st, XmlTokenModel::EntitySystem { name, system_id: value }).stack == st,
        spec_step(fields, st, XmlTokenModel::EntitySystem { name, system_id: value }).error is None,
        forall|other: Seq<char>|
            spec_step(fields, st, XmlTokenModel::EntityPublic { name, public_id: value, system_id: other }).stack
                == st,
        forall|other: Seq<char>|
            spec_step(fields, st, XmlTokenModel::EntityPublic { name, public_id: value, system_id: other }).error
                is None,
{
}

/// A document whose tokens leave an element open is refused, whatever fields it gave.
pub proof fn lemma_open_element_is_refused(fields: FieldSeq, lexed: XmlLexModel)
    requires
        spec_run(fields, Seq::empty(), lexed.tokens).stack.len() > 0,
    ensures
        spec_flatten(fields, lexed).1 is Some,
{
}

/// A closing tag is accepted only with the name of the innermost open element.
pub proof fn lemma_closing_tag_must_match(fields: FieldSeq, st: FrameSeq, given: Seq<char>)
    ensures
        spec_close(fields, st, Some(given)).error is None <==> (st.len() > 0 && st.last().0 == given),
{
}

/// A token removes and overwrites nothing.
pub proof fn lemma_step_keeps_fields(fields: FieldSeq, st: FrameSeq, token: XmlTokenModel)
    ensures
        keeps_fields(fields, spec_step(fields, st, token).fields),
{
    lemma_keeps_fields_same(fields);
    match token {
        XmlTokenModel::EntityValue { name, value } => {
            lemma_add_keeps_fields(fields, "_XMLENTITY_VALUE_"@ + name, value);
        },
        XmlTokenModel::EntitySystem { name, system_id } => {
            lemma_add_keeps_fields(fields, "_XMLENTITY_SYSTEMID_"@ + name, system_id);
        },
        XmlTokenModel::EntityPublic { name, public_id, system_id } => {
            lemma_add_keeps_fields(fields, "_XMLENTITY_PUBLICID_"@ + name, public_id + seq!['/'] + system_id);
        },
        XmlTokenModel::ElementEndEmpty => {
            if st.len() > 0 {
                lemma_add_keeps_fields(
                    fields,
                    spec_xml_path(st.drop_last()) + st.last().0 + seq!['1'],
                    Seq::empty(),
                );
            }
        },
        XmlTokenModel::ElementEndClose { local } => {
            if st.len() > 0 {
                lemma_add_keeps_fields(
                    fields,
                    spec_xml_path(st.drop_last()) + st.last().0 + seq!['1'],
                    Seq::empty(),
                );
            }
        },
        XmlTokenModel::Attribute { local, value } => {
            lemma_add_keeps_fields(fields, spec_xml_path(st) + local, value);
        },
        XmlTokenModel::Text { text } => {
            lemma_add_keeps_fields(fields, spec_xml_path(bump_top(st)), trimmed(text));
        },
        XmlTokenModel::Cdata { text } => {
            lemma_add_keeps_fields(fields, spec_xml_path(bump_top(st)), text);
        },
        _ => {},
    }
}

/// A run of tokens removes and overwrites nothing, whether it fails or not.
pub proof fn lemma_run_keeps_fields(fields: FieldSeq, st: FrameSeq, tokens: Seq<XmlTokenModel>)
    ensures
        keeps_fields(fields, spec_run(fields, st, tokens).fields),
    decreases tokens.len(),
{
    if tokens.len() == 0 {
        lemma_keeps_fields_same(fields);
    } else {
        let o = spec_step(fields, st, tokens[0]);
        lemma_step_keeps_fields(fields, st, tokens[0]);
        if o.error is None {
            lemma_run_keeps_fields(o.fields, o.stack, tokens.skip(1));
            lemma_keeps_fields_chain(fields, o.fields, spec_run(o.fields, o.stack, tokens.skip(1)).fields);
        }
    }
}

/// A token raises no counter by more than one.
pub proof fn lemma_step_bound(fields: FieldSeq, st: FrameSeq, token: XmlTokenModel, bound: nat)
    requires
        counters_below(st, bound),
    ensures
        counters_below(spec_step(fields, st, token).stack, bound + 1),
{
    let o = spec_step(fields, st, token);
    let b = bump_top(st);
    assert forall|i: int| 0 <= i < b.len() implies (#[trigger] b[i]).1 <= bound + 1 by {
        if i < st.len() - 1 {
            assert(b[i] == st[i]);
        } else {
            assert(b[i].1 == st[i].1 + 1);
        }
    }
    assert forall|i: int| 0 <= i < o.stack.len() implies (#[trigger] o.stack[i]).1 <= bound + 1 by {
        match token {
            XmlTokenModel::ElementStart { local } => {
                if i < b.len() {
                    assert(o.stack[i] == b[i]);
                }
            },
            XmlTokenModel::ElementEndEmpty => {
                assert(o.stack[i] == st[i]);
            },
            XmlTokenModel::ElementEndClose { local } => {
                assert(o.stack[i] == st[i]);
            },
            XmlTokenModel::Text { text } => {
                if trimmed(text).len() > 0 {
                    assert(o.stack[i] == b[i]);
                } else {
                    assert(o.stack[i] == st[i]);
                }
            },
            XmlTokenModel::Cdata { text } => {
                assert(o.stack[i] == b[i]);
            },
            _ => {
                assert(o.stack[i] == st[i]);
            },
        }
    }
}

/// The path of the stack: each open element's name, followed by its counter
/// where that is not 0.
pub fn xml_path(stack: &Vec<(String, u64)>) -> (out: String)
    ensures
        out@ == spec_xml_path(frames(stack@)),
{
    let mut out = String::new();
    let mut i: usize = 0;
    assert(frames(stack@).take(0) =~= Seq::empty());
    while i < stack.len()
        invariant
            i <= stack@.len(),
            out@ == spec_xml_path(frames(stack@).take(i as int)),
        decreases stack@.len() - i,
    {
        let ghost before = out@;
        out.append(stack[i].0.as_str());
        if stack[i].1 > 0 {
            let digits = decimal(stack[i].1);
            out.append(digits.as_str());
        }
        proof {
            let f = frames(stack@);
            assert(f.take(i + 1).drop_last() =~= f.take(i as int));
            assert(f.take(i + 1).last() == f[i as int]);
            assert(out@ =~= before + f[i as int].0 + counter_suffix(f[i as int].1));
        }
        i += 1;
    }
    assert(frames(stack@).take(i as int) =~= frames(stack@));
    out
}

/// Raises the counter of the innermost open element by one and returns what
/// it was; with no open element nothing changes and 0 is returned.
pub fn xml_increment_last(stack: &mut Vec<(String, u64)>) -> (prev: u64)
    requires
        old(stack)@.len() > 0 ==> old(stack)@.last().1 < u64::MAX,
    ensures
        frames(final(stack)@) == bump_top(frames(old(stack)@)),
        prev as nat == (if old(stack)@.len() == 0 {
            0nat
        } else {
            old(stack)@.last().1 as nat
        }),
{
    match stack.pop() {
        Some((name, count)) => {
            stack.push((name, count + 1));
            assert(frames(stack@) =~= bump_top(frames(old(stack)@)));
            count
        },
        None => {
            assert(frames(stack@) =~= bump_top(frames(old(stack)@)));
            0
        },
    }
}

/// Closes the innermost open element. A closing tag must carry its name; an
/// element that had no content becomes a field with an empty value, at the
/// parent's path, its name and `1`. Fails where no element is open.
pub fn close_xml_element(
    args: &mut RequestField,
    stack: &mut Vec<(String, u64)>,
    close_name: Option<&str>,
) -> (r: Result<(), ParseError>)
    requires
        old(args).wf(),
    ensures
        final(args).wf(),
        final(args)@ == spec_close(old(args)@, frames(old(stack)@), opt_str(close_name)).fields,
        frames(final(stack)@) == spec_close(old(args)@, frames(old(stack)@), opt_str(close_name)).stack,
        result_error(r) == spec_close(old(args)@, frames(old(stack)@), opt_str(close_name)).error,
{
    match stack.pop() {
        None => {
            assert(frames(stack@) =~= frames(old(stack)@));
            Err(ParseError::InvalidXml(String::from_str("extraneous element end")))
        },
        Some((openname, idx)) => {
            assert(frames(stack@) =~= frames(old(stack)@).drop_last());
            assert(frames(old(stack)@).last() == (openname@, idx as nat));
            if let Some(local) = close_name {
                let given = String::from_str(local);
                if !(openname == given) {
                    let mut text = String::from_str("wrong closing element, expected ");
                    text.append(openname.as_str());
                    text.append(", got ");
                    text.append(local);
                    return Err(ParseError::InvalidXml(text));
                }
            }
            if idx == 0 {
                let mut path = xml_path(stack);
                path.append(openname.as_str());
                path.append("1");
                proof {
                    reveal_strlit("1");
                    assert("1"@ =~= seq!['1']);
                }
                args.add(path, String::new());
            }
            Ok(())
        },
    }
}

/// Handles one token: entity declarations, attributes, texts and CDATA
/// sections become fields; elements open and close frames of the stack.
pub fn xml_token(args: &mut RequestField, stack: &mut Vec<(String, u64)>, token: &XmlToken) -> (r: Result<
    (),
    ParseError,
>)
    requires
        old(args).wf(),
        forall|i: int| 0 <= i < old(stack)@.len() ==> (#[trigger] old(stack)@[i]).1 < u64::MAX,
    ensures
        final(args).wf(),
        final(args)@ == spec_step(old(args)@, frames(old(stack)@), token@).fields,
        frames(final(stack)@) == spec_step(old(args)@, frames(old(stack)@), token@).stack,
        result_error(r) == spec_step(old(args)@, frames(old(stack)@), token@).error,
{
    match token {
        XmlToken::Skipped => Ok(()),
        XmlToken::ElementEndOpen => Ok(()),
        XmlToken::EntityValue { name, value } => {
            let mut key = String::from_str("_XMLENTITY_VALUE_");
            key.append(name.as_str());
            args.add(key, value.clone());
            Ok(())
        },
        XmlToken::EntitySystem { name, system_id } => {
            let mut key = String::from_str("_XMLENTITY_SYSTEMID_");
            key.append(name.as_str());
            args.add(key, system_id.clone());
            Ok(())
        },
        XmlToken::EntityPublic { name, public_id, system_id } => {
            let mut key = String::from_str("_XMLENTITY_PUBLICID_");
            key.append(name.as_str());
            let mut value = public_id.clone();
            value.append("/");
            value.append(system_id.as_str());
            proof {
                reveal_strlit("/");
                assert("/"@ =~= seq!['/']);
            }
            args.add(key, value);
            Ok(())
        },
        XmlToken::ElementStart { local } => {
            xml_increment_last(stack);
            let ghost bumped = stack@;
            stack.push((local.clone(), 0));
            assert(frames(stack@) =~= frames(bumped).push((local@, 0nat)));
            Ok(())
        },
        XmlToken::ElementEndEmpty => close_xml_element(args, stack, None),
        XmlToken::ElementEndClose { local } => close_xml_element(args, stack, Some(local.as_str())),
        XmlToken::Attribute { local, value } => {
            let mut path = xml_path(stack);
            path.append(local.as_str());
            args.add(path, value.clone());
            Ok(())
        },
        XmlToken::Text { text } => {
            let kept = trim_text(text.as_str());
            if !kept.is_empty() {
                xml_increment_last(stack);
                args.add(xml_path(stack), String::from_str(kept));
            }
            Ok(())
        },
        XmlToken::Cdata { text } => {
            xml_increment_last(stack);
            args.add(xml_path(stack), text.clone());
            Ok(())
        },
    }
}

/// Runs the tokens on an empty stack and adds the fields they give. Fails at
/// the first token that does not fit, then on the lexer's error, then where
/// an element is still open at the end.
pub fn xml_flatten(args: &mut RequestField, lexed: &XmlLex) -> (r: Result<(), ParseError>)
    requires
        old(args).wf(),
    ensures
        final(args).wf(),
        (final(args)@, result_error(r)) == spec_flatten(old(args)@, lexed@),
{
    let mut stack: Vec<(String, u64)> = Vec::new();
    let mut i: usize = 0;
    assert(frames(stack@) =~= Seq::empty());
    let ghost tokens = lexed@.tokens;
    assert(tokens.skip(0) =~= tokens);
    while i < lexed.tokens.len()
        invariant
            i <= lexed.tokens@.len(),
            args.wf(),
            counters_below(frames(stack@), i as nat),
            tokens == lexed@.tokens,
            spec_run(args@, frames(stack@), tokens.skip(i as int)) == spec_run(old(args)@, Seq::empty(), tokens),
        decreases lexed.tokens@.len() - i,
    {
        let ghost fields = args@;
        let ghost st = frames(stack@);
        proof {
            lemma_step_bound(fields, st, tokens[i as int], i as nat);
            assert forall|j: int| 0 <= j < stack@.len() implies (#[trigger] stack@[j]).1 < u64::MAX by {
                assert(st[j].1 <= i);
            }
            assert(tokens.skip(i as int)[0] == lexed.tokens@[i as int]@);
            assert(tokens.skip(i as int).skip(1) =~= tokens.skip(i + 1));
        }
        let step = xml_token(args, &mut stack, &lexed.tokens[i]);
        match step {
            Err(e) => {
                return Err(e);
            },
            Ok(_) => {},
        }
        i += 1;
    }
    match &lexed.error {
        Some(text) => Err(ParseError::InvalidXml(text.clone())),
        None => {
            if stack.len() == 0 {
                Ok(())
            } else {
                Err(ParseError::InvalidXml(String::from_str("premature end of document")))
            }
        },
    }
}

/// `xmlparser::Token`, a token of the lexer; nothing is known of a value of it.
#[verifier::external_type_specification]
#[verifier::external_body]
pub struct ExToken<'a>(xmlparser::Token<'a>);

/// `xmlparser::ElementEnd`, the way in which a tag ends; nothing is known of a value of it.
#[verifier::external_type_specification]
#[verifier::external_body]
pub struct ExElementEnd<'a>(xmlparser::ElementEnd<'a>);

/// `xmlparser::EntityDefinition`, what an entity is declared as; nothing is known of a value of it.
#[verifier::external_type_specification]
#[verifier::external_body]
pub struct ExEntityDefinition<'a>(xmlparser::EntityDefinition<'a>);

/// Tells the three variants of `xmlparser::ElementEnd` apart and copies the
/// local name of a closing tag. Nothing is claimed of the result.
#[verifier::external_body]
fn end_token(end: xmlparser::ElementEnd) -> XmlToken {
    match end {
        xmlparser::ElementEnd::Open => XmlToken::ElementEndOpen,
        xmlparser::ElementEnd::Empty => XmlToken::ElementEndEmpty,
        xmlparser::ElementEnd::Close(_, local) => XmlToken::ElementEndClose { local: local.to_string() },
    }
}

/// Tells the variants of `xmlparser::EntityDefinition` (and of the
/// `ExternalId` in it) apart and copies their texts. Nothing is claimed of the result.
#[verifier::external_body]
fn entity_token(name: String, definition: xmlparser::EntityDefinition) -> XmlToken {
    match definition {
        xmlparser::EntityDefinition::EntityValue(v) => XmlToken::EntityValue { name, value: v.to_string() },
        xmlparser::EntityDefinition::ExternalId(xmlparser::ExternalId::System(s)) => XmlToken::EntitySystem { name, system_id: s.to_string() },
        xmlparser::EntityDefinition::ExternalId(xmlparser::ExternalId::Public(p, s)) => XmlToken::EntityPublic { name, public_id: p.to_string(), system_id: s.to_string() },
    }
}

/// Tells the variants of `xmlparser::Token` apart and copies the texts that
/// the flattening reads. Nothing is claimed of the result.
#[verifier::external_body]
fn token_of(token: xmlparser::Token) -> XmlToken {
    match token {
        xmlparser::Token::EntityDeclaration { name, definition, .. } => entity_token(name.to_string(), definition),
        xmlparser::Token::ElementStart { local, .. } => XmlToken::ElementStart { local: local.to_string() },
        xmlparser::Token::ElementEnd { end, .. } => end_token(end),
        xmlparser::Token::Attribute { local, value, .. } => XmlToken::Attribute { local: local.to_string(), value: value.to_string() },
        xmlparser::Token::Text { text } => XmlToken::Text { text: text.to_string() },
        xmlparser::Token::Cdata { text, .. } => XmlToken::Cdata { text: text.to_string() },
        _ => XmlToken::Skipped,
    }
}

/// What `xmlparser::Tokenizer` gives for this text: its tokens up to its
/// first error, and that error's message.
pub uninterp spec fn xml_lexed(text: Seq<char>) -> XmlLexModel;

/// Walks `xmlparser::Tokenizer` over the text and collects its tokens until
/// it ends or reports an error. The contract only names what it gives.
#[verifier::external_body]
pub(crate) fn lex_xml(text: &str) -> (r: XmlLex)
    ensures
        r@ == xml_lexed(text@),
{
    let mut r = XmlLex { tokens: Vec::new(), error: None };
    for item in xmlparser::Tokenizer::from(text) {
        match item {
            Ok(token) => r.tokens.push(token_of(token)),
            Err(e) => {
                r.error = Some(e.to_string());
                break;
            },
        }
    }
    r
}

/// The fields and the error after an XML body.
pub open spec fn spec_xml_body(fields: FieldSeq, body: Seq<u8>) -> (FieldSeq, Option<ParseErrorModel>) {
    spec_flatten(fields, xml_lexed(utf8_lossy(body)))
}

/// An XML body removes and overwrites nothing, whether it is accepted or not.
pub proof fn lemma_xml_keeps_fields(fields: FieldSeq, body: Seq<u8>)
    ensures
        keeps_fields(fields, spec_xml_body(fields, body).0),
{
    lemma_run_keeps_fields(fields, Seq::empty(), xml_lexed(utf8_lossy(body)).tokens);
}

/// Reads the body as text, invalid UTF-8 replaced, and flattens it as XML.
pub fn xml_body(args: &mut RequestField, body: &[u8]) -> (r: Result<(), ParseError>)
    requires
        old(args).wf(),
    ensures
        final(args).wf(),
        (final(args)@, result_error(r)) == spec_xml_body(old(args)@, body@),
{
    let text = lossy_text(body);
    let lexed = lex_xml(text.as_str());
    xml_flatten(args, &lexed)
}

} // verus!
