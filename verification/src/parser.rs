use vstd::prelude::*;
use vstd::string::StringExecFns;
use crate::document::{Document, RawDocument};
use crate::error::{is_adapter_error, Error};
use crate::source::{has_extension, has_extension_spec, path_extension};
use crate::text::{ascii_lower, eq_ignore_ascii_case};
use crate::text::owned;

verus! {

/// Text that html2text renders from HTML `content` wrapped at `width` columns, or `None` when
/// rendering fails.
pub uninterp spec fn html_text(content: Seq<char>, width: nat) -> Option<Seq<char>>;

/// Renders HTML as plain text wrapped at 80 columns (html2text `config::plain()` and
/// `string_from_read`); `None` when rendering fails.
#[verifier::external_body]
fn render_html(content: &str) -> (r: Option<String>)
    ensures
        match r {
            Some(t) => html_text(content@, 80) == Some(t@),
            None => html_text(content@, 80) is None,
        },
{
    html2text::config::plain().string_from_read(content.as_bytes(), 80).ok()
}

/// The document at `uri` is a PDF file.
pub open spec fn pdf_uri(uri: Seq<char>) -> bool {
    has_extension_spec(uri, "pdf"@)
}

/// The document at `uri` is an HTML file.
pub open spec fn html_uri(uri: Seq<char>) -> bool {
    has_extension_spec(uri, "html"@) || has_extension_spec(uri, "htm"@)
}

/// A copy of `raw`.
pub fn copy_raw(raw: &RawDocument) -> (c: RawDocument)
    ensures
        c.id@ == raw.id@,
        c.uri@ == raw.uri@,
        c.title@ == raw.title@,
        c.content@ == raw.content@,
        c.content_hash@ == raw.content_hash@,
{
    RawDocument {
        id: owned(raw.id.as_str()),
        uri: owned(raw.uri.as_str()),
        title: owned(raw.title.as_str()),
        content: owned(raw.content.as_str()),
        content_hash: owned(raw.content_hash.as_str()),
    }
}

/// Whether `raw` is a PDF file (by extension, ignoring ASCII case).
pub fn is_pdf(raw: &RawDocument) -> (r: bool)
    ensures
        r == pdf_uri(raw.uri@),
{
    has_extension(raw.uri.as_str(), "pdf")
}

/// Whether `raw` is an HTML file (`.html` or `.htm`, ignoring ASCII case).
pub fn is_html(raw: &RawDocument) -> (r: bool)
    ensures
        r == html_uri(raw.uri@),
{
    has_extension(raw.uri.as_str(), "html") || has_extension(raw.uri.as_str(), "htm")
}

/// Outcome of parsing a raw document.
pub enum ParseStep {
    /// The parsed document.
    Parsed(Document),
    /// The document is a PDF file: its text must be extracted from the file, then handed to
    /// `AutoParser::finish_pdf`.
    NeedsPdfText,
}

/// `d` is `raw` with parsed text `text`.
pub open spec fn parsed_as(d: Document, raw: RawDocument, text: Seq<char>) -> bool {
    &&& d.raw.id@ == raw.id@
    &&& d.raw.uri@ == raw.uri@
    &&& d.raw.title@ == raw.title@
    &&& d.raw.content@ == raw.content@
    &&& d.raw.content_hash@ == raw.content_hash@
    &&& d.parsed_content@ == text
}

/// Picks the parse by file extension: PDF text extraction, HTML rendering, or the content as is.
pub struct AutoParser;

impl AutoParser {
    /// Parses `raw`: PDF files need their text extracted; HTML is rendered as plain text (an
    /// adapter error when rendering fails); anything else is kept as it is.
    pub fn parse(&self, raw: &RawDocument) -> (r: Result<ParseStep, Error>)
        ensures
            pdf_uri(raw.uri@) ==> r matches Ok(ParseStep::NeedsPdfText),
            !pdf_uri(raw.uri@) && html_uri(raw.uri@) ==> match html_text(raw.content@, 80) {
                Some(t) => r matches Ok(ParseStep::Parsed(d)) && parsed_as(d, *raw, t),
                None => is_adapter_error(r, "auto"@, "html conversion failed for "@ + raw.uri@),
            },
            !pdf_uri(raw.uri@) && !html_uri(raw.uri@) ==> (r matches Ok(ParseStep::Parsed(d)) && parsed_as(d, *raw, raw.content@)),
    {
        if is_pdf(raw) {
            Ok(ParseStep::NeedsPdfText)
        } else if is_html(raw) {
            let rendered = render_html(raw.content.as_str());
            match self.finish_html(raw, rendered) {
                Ok(d) => Ok(ParseStep::Parsed(d)),
                Err(e) => Err(e),
            }
        } else {
            let content = owned(raw.content.as_str());
            Ok(ParseStep::Parsed(Document { raw: copy_raw(raw), parsed_content: content }))
        }
    }

    /// Completes the parse of an HTML file from its rendering (`None` when rendering failed).
    pub fn finish_html(&self, raw: &RawDocument, rendered: Option<String>) -> (r: Result<Document, Error>)
        ensures
            match rendered {
                Some(t) => r matches Ok(d) && parsed_as(d, *raw, t@),
                None => is_adapter_error(r, "auto"@, "html conversion failed for "@ + raw.uri@),
            },
    {
        match rendered {
            Some(text) => Ok(Document { raw: copy_raw(raw), parsed_content: text }),
            None => {
                let mut message = owned("html conversion failed for ");
                message.append(raw.uri.as_str());
                Err(Error::Adapter { adapter: owned("auto"), message })
            },
        }
    }

    /// Completes the parse of a PDF file from the outcome of extracting its text.
    pub fn finish_pdf(&self, raw: &RawDocument, extracted: Result<String, String>) -> (r: Result<Document, Error>)
        ensures
            match extracted {
                Ok(t) => r matches Ok(d) && parsed_as(d, *raw, t@),
                Err(e) => is_adapter_error(r, "auto"@, "pdf extract failed for "@ + raw.uri@ + ": "@ + e@),
            },
    {
        match extracted {
            Ok(text) => Ok(Document { raw: copy_raw(raw), parsed_content: text }),
            Err(e) => {
                let mut message = owned("pdf extract failed for ");
                message.append(raw.uri.as_str());
                message.append(": ");
                message.append(e.as_str());
                Err(Error::Adapter { adapter: owned("auto"), message })
            },
        }
    }
}

/// Law: the parser picks by extension, ignoring ASCII case: a document is HTML exactly when its
/// path extension is `html` or `htm`, and a PDF exactly when it is `pdf`; so a `.htm` or `.html`
/// document is rendered as HTML and not taken for a PDF.
pub proof fn law_parse_kind_by_extension(uri: Seq<char>)
    ensures
        html_uri(uri) <==> (path_extension(uri) matches Some(e) && (eq_ignore_ascii_case(e, "html"@) || eq_ignore_ascii_case(e, "htm"@))),
        pdf_uri(uri) <==> (path_extension(uri) matches Some(e) && eq_ignore_ascii_case(e, "pdf"@)),
        path_extension(uri) == Some("htm"@) || path_extension(uri) == Some("html"@) ==> html_uri(uri) && !pdf_uri(uri),
{
    reveal_strlit("htm");
    reveal_strlit("html");
    reveal_strlit("pdf");
    assert(ascii_lower("htm"@[0]) != ascii_lower("pdf"@[0]));
    assert(eq_ignore_ascii_case("htm"@, "htm"@));
    assert(eq_ignore_ascii_case("html"@, "html"@));
}

} // verus!
