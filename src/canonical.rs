//! The canonical text of the settings document: the markup re-emitted with
//! two-space indentation, surrounding whitespace dropped, behind the fixed
//! declaration line.
use vstd::prelude::*;
use quick_xml::events::Event;
use quick_xml::{Reader, Writer};
use crate::layout::{declaration, with_declaration, ManagerError};

verus! {

/// quick_xml's pull parser, carried through opaquely.
#[verifier::external_type_specification]
#[verifier::external_body]
#[verifier::reject_recursive_types(R)]
pub struct ExXmlReader<R>(Reader<R>);

/// quick_xml's event writer, carried through opaquely.
#[verifier::external_type_specification]
#[verifier::external_body]
#[verifier::reject_recursive_types(W)]
pub struct ExXmlWriter<W>(Writer<W>);

/// One quick_xml event, handed from the reader to the writer unread.
#[verifier::external_type_specification]
#[verifier::external_body]
pub struct ExXmlEvent<'a>(Event<'a>);

/// quick_xml's error, mapped to the library's own error where it comes.
#[verifier::external_type_specification]
#[verifier::external_body]
pub struct ExXmlError(quick_xml::Error);

/// Relies on quick_xml's `Reader::from_str`: a reader over `text`.
#[verifier::external_body]
fn xml_reader<'a>(text: &'a str) -> Reader<&'a [u8]> {
    Reader::from_str(text)
}

/// Relies on quick_xml's `Reader::trim_text`: whether whitespace around text
/// content is dropped from the events.
#[verifier::external_body]
fn set_trim_text(reader: &mut Reader<&[u8]>, trim: bool) {
    reader.trim_text(trim);
}

/// Relies on quick_xml's `Reader::read_event`: the next event of the markup.
#[verifier::external_body]
fn next_event<'a>(reader: &mut Reader<&'a [u8]>) -> Result<Event<'a>, quick_xml::Error> {
    reader.read_event()
}

/// Tells quick_xml's `Event::Eof`, the end of the input, from the other events.
#[verifier::external_body]
fn is_end_of_input(event: &Event) -> bool {
    match event {
        Event::Eof => true,
        _ => false,
    }
}

/// Relies on quick_xml's `Writer::new_with_indent`: a writer into a byte
/// buffer that indents each nesting level by `indent_size` copies of
/// `indent_char`.
#[verifier::external_body]
fn indenting_writer(indent_char: u8, indent_size: usize) -> Writer<Vec<u8>> {
    Writer::new_with_indent(Vec::new(), indent_char, indent_size)
}

/// Relies on quick_xml's `Writer::write_event`: writes one event. Its only
/// errors come from the underlying writer, and appending to a `Vec<u8>`
/// never fails.
#[verifier::external_body]
fn write_xml_event(writer: &mut Writer<Vec<u8>>, event: Event) -> (r: Result<(), quick_xml::Error>)
    ensures
        r is Ok,
{
    writer.write_event(event)
}

/// Relies on quick_xml's `Writer::into_inner`: the bytes written.
#[verifier::external_body]
fn written_bytes(writer: Writer<Vec<u8>>) -> Vec<u8> {
    writer.into_inner()
}

/// Relies on std's `String::from_utf8`: the text of the bytes, where they are
/// valid UTF-8.
#[verifier::external_body]
fn utf8_text(bytes: Vec<u8>) -> Option<String> {
    String::from_utf8(bytes).ok()
}

/// Whitespace around text content is dropped when the markup is read.
pub const TRIM_TEXT: bool = true;

/// Nested elements are indented with spaces ...
pub const INDENT_CHAR: u8 = 32;

/// ... two per level.
pub const INDENT_SIZE: usize = 2;

/// The document's text from the re-emitted markup: the declaration line then
/// the body, or `SerializeFailure` where there is no body.
pub fn framed_document(body: Option<String>) -> (r: Result<String, ManagerError>)
    ensures
        body is None ==> r == Err::<String, ManagerError>(ManagerError::SerializeFailure),
        body matches Some(b) ==> r matches Ok(s) && s@ == declaration() + b@,
{
    match body {
        Some(b) => Ok(with_declaration(b.as_str())),
        None => Err(ManagerError::SerializeFailure),
    }
}

/// Re-emits the markup `unformatted` through quick_xml, event by event, with
/// whitespace around text dropped and two-space indentation, and frames the
/// result with `framed_document`. A markup error, or output that is not
/// UTF-8, gives `SerializeFailure`. What quick_xml reads from the markup and
/// writes is not stated here; only the framing is.
pub fn canonical_document(unformatted: &str) -> (r: Result<String, ManagerError>)
    ensures
        r matches Ok(s) ==> exists|b: Seq<char>| s@ == declaration() + b,
        r matches Err(e) ==> e == ManagerError::SerializeFailure,
{
    let mut reader = xml_reader(unformatted);
    set_trim_text(&mut reader, TRIM_TEXT);
    let mut writer = indenting_writer(INDENT_CHAR, INDENT_SIZE);
    // Every event but the end of input consumes at least one byte of the
    // markup, so the end comes within one read more than the markup has bytes.
    let budget = unformatted.len();
    let mut reads: usize = 0;
    loop
        invariant
            reads <= budget,
        decreases budget - reads,
    {
        let event = match next_event(&mut reader) {
            Ok(e) => e,
            Err(_) => {
                return Err(ManagerError::SerializeFailure);
            },
        };
        if is_end_of_input(&event) {
            break;
        }
        if reads == budget {
            return Err(ManagerError::SerializeFailure);
        }
        reads = reads + 1;
        let _ = write_xml_event(&mut writer, event);
    }
    let body = utf8_text(written_bytes(writer));
    let ghost text = match body {
        Some(ref b) => Some(b@),
        None => None,
    };
    let r = framed_document(body);
    proof {
        if let Some(t) = text {
            assert((r->Ok_0)@ == declaration() + t);
        }
    }
    r
}

} // verus!
