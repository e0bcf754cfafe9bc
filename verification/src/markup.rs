//! HTML markup of single nodes, as html5ever's serializer writes it.
use html5ever::serialize::{HtmlSerializer, SerializeOpts, Serializer};
use html5ever::{LocalName, Namespace, Prefix, QualName};
use vstd::prelude::*;

verus! {

/// A qualified name of an element or an attribute.
pub struct QName {
    pub prefix: Option<String>,
    pub ns: String,
    pub local: String,
}

/// The plain value of a qualified name.
pub struct QNameView {
    pub prefix: Option<Seq<char>>,
    pub ns: Seq<char>,
    pub local: Seq<char>,
}

impl View for QName {
    type V = QNameView;

    open spec fn view(&self) -> QNameView {
        QNameView {
            prefix: match self.prefix {
                Some(p) => Some(p@),
                None => None,
            },
            ns: self.ns@,
            local: self.local@,
        }
    }
}

/// An attribute of an element.
pub struct Attribute {
    pub name: QName,
    pub value: String,
}

/// The plain value of an attribute.
pub struct AttributeView {
    pub name: QNameView,
    pub value: Seq<char>,
}

impl View for Attribute {
    type V = AttributeView;

    open spec fn view(&self) -> AttributeView {
        AttributeView { name: self.name@, value: self.value@ }
    }
}

/// The plain values of a list of attributes.
pub open spec fn attrs_view(attrs: Seq<Attribute>) -> Seq<AttributeView> {
    attrs.map_values(|a: Attribute| a@)
}

/// The namespace of HTML elements.
pub open spec fn html_ns() -> Seq<char> {
    "http://www.w3.org/1999/xhtml"@
}

/// The elements that never have content: the serializer writes no end tag for them.
pub open spec fn is_void(name: QNameView) -> bool {
    let l = name.local;
    name.ns == html_ns() && (l == "area"@ || l == "base"@ || l == "basefont"@ || l == "bgsound"@
        || l == "br"@ || l == "col"@ || l == "embed"@ || l == "frame"@ || l == "hr"@ || l
        == "img"@ || l == "input"@ || l == "keygen"@ || l == "link"@ || l == "meta"@ || l
        == "param"@ || l == "source"@ || l == "track"@ || l == "wbr"@)
}

/// The elements whose text is written without escaping (scripting disabled).
pub open spec fn is_raw_text_parent(name: QNameView) -> bool {
    let l = name.local;
    name.ns == html_ns() && (l == "style"@ || l == "script"@ || l == "xmp"@ || l == "iframe"@
        || l == "noembed"@ || l == "noframes"@ || l == "plaintext"@)
}

/// One character escaped, in attribute values (`attr_mode`) or in text.
pub open spec fn escaped_char(c: char, attr_mode: bool) -> Seq<char> {
    if c == '&' {
        "&amp;"@
    } else if c == '\u{A0}' {
        "&nbsp;"@
    } else if attr_mode && c == '"' {
        "&quot;"@
    } else if !attr_mode && c == '<' {
        "&lt;"@
    } else if !attr_mode && c == '>' {
        "&gt;"@
    } else {
        seq![c]
    }
}

/// A text escaped character by character.
pub open spec fn escaped(s: Seq<char>, attr_mode: bool) -> Seq<char>
    decreases s.len(),
{
    if s.len() == 0 {
        Seq::empty()
    } else {
        escaped(s.drop_last(), attr_mode) + escaped_char(s.last(), attr_mode)
    }
}

/// What is written before an attribute's local name, by its namespace.
pub open spec fn attribute_prefix(name: QNameView) -> Seq<char> {
    if name.ns == Seq::<char>::empty() {
        Seq::empty()
    } else if name.ns == "http://www.w3.org/XML/1998/namespace"@ {
        "xml:"@
    } else if name.ns == "http://www.w3.org/2000/xmlns/"@ {
        if name.local == "xmlns"@ {
            Seq::empty()
        } else {
            "xmlns:"@
        }
    } else if name.ns == "http://www.w3.org/1999/xlink"@ {
        "xlink:"@
    } else {
        "unknown_namespace:"@
    }
}

/// One attribute as written inside a start tag, with its leading space.
pub open spec fn attribute_text(a: AttributeView) -> Seq<char> {
    " "@ + attribute_prefix(a.name) + a.name.local + "=\""@ + escaped(a.value, true) + "\""@
}

/// The attributes as written inside a start tag.
pub open spec fn attributes_text(attrs: Seq<AttributeView>) -> Seq<char>
    decreases attrs.len(),
{
    if attrs.len() == 0 {
        Seq::empty()
    } else {
        attributes_text(attrs.drop_last()) + attribute_text(attrs.last())
    }
}

/// A start tag.
pub open spec fn start_tag_text(name: QNameView, attrs: Seq<AttributeView>) -> Seq<char> {
    "<"@ + name.local + attributes_text(attrs) + ">"@
}

/// An end tag: nothing for a void element.
pub open spec fn end_tag_text(name: QNameView) -> Seq<char> {
    if is_void(name) {
        Seq::empty()
    } else {
        "</"@ + name.local + ">"@
    }
}

/// A text node inside an element (`None`: at the top of the document).
pub open spec fn text_node_text(parent: Option<QNameView>, text: Seq<char>) -> Seq<char> {
    match parent {
        Some(p) => if is_raw_text_parent(p) {
            text
        } else {
            escaped(text, false)
        },
        None => escaped(text, false),
    }
}

/// A comment.
pub open spec fn comment_text(text: Seq<char>) -> Seq<char> {
    "<!--"@ + text + "-->"@
}

/// A doctype.
pub open spec fn doctype_text(name: Seq<char>) -> Seq<char> {
    "<!DOCTYPE "@ + name + ">"@
}

/// html5ever's `HtmlSerializer::start_elem`, on a serializer that is not inside a void
/// element: `<`, the local name, each attribute escaped with its namespace prefix, `>`.
#[verifier::external_body]
pub(crate) fn start_tag_markup(name: &QName, attrs: &Vec<Attribute>) -> (r: String)
    ensures
        r@ == start_tag_text(name@, attrs_view(attrs@)),
{
    let qual = |n: &QName|
        QualName::new(n.prefix.as_deref().map(Prefix::from), Namespace::from(n.ns.as_str()), LocalName::from(n.local.as_str()));
    let keys: Vec<QualName> = attrs.iter().map(|a| qual(&a.name)).collect();
    let mut ser = HtmlSerializer::new(Vec::new(), SerializeOpts::default());
    let _ = ser.start_elem(qual(name), keys.iter().zip(attrs.iter()).map(|(k, a)| (k, a.value.as_str())));
    String::from_utf8(ser.writer).unwrap_or_default()
}

/// html5ever's `HtmlSerializer::end_elem` right after the element's `start_elem`: `</`,
/// the local name and `>`, or nothing where the element is void.
#[verifier::external_body]
pub(crate) fn end_tag_markup(name: &QName) -> (r: String)
    ensures
        r@ == end_tag_text(name@),
{
    let qual = QualName::new(name.prefix.as_deref().map(Prefix::from), Namespace::from(name.ns.as_str()), LocalName::from(name.local.as_str()));
    let mut ser = HtmlSerializer::new(Vec::new(), SerializeOpts::default());
    let _ = ser.start_elem(qual.clone(), std::iter::empty());
    ser.writer.clear();
    let _ = ser.end_elem(qual);
    String::from_utf8(ser.writer).unwrap_or_default()
}

/// html5ever's `HtmlSerializer::write_text` with scripting disabled, as `Html::html` runs
/// it: the text as it is inside `style`, `script`, `xmp`, `iframe`, `noembed`, `noframes`
/// and `plaintext`, else with `&`, no-break space, `<` and `>` escaped.
#[verifier::external_body]
pub(crate) fn text_markup(parent: Option<&QName>, text: &str) -> (r: String)
    ensures
        r@ == text_node_text(
            match parent {
                Some(p) => Some(p@),
                None => None,
            },
            text@,
        ),
{
    let opts = SerializeOpts { scripting_enabled: false, ..SerializeOpts::default() };
    let mut ser = HtmlSerializer::new(Vec::new(), opts);
    if let Some(p) = parent {
        let qual = QualName::new(p.prefix.as_deref().map(Prefix::from), Namespace::from(p.ns.as_str()), LocalName::from(p.local.as_str()));
        let _ = ser.start_elem(qual, std::iter::empty());
        ser.writer.clear();
    }
    let _ = ser.write_text(text);
    String::from_utf8(ser.writer).unwrap_or_default()
}

/// html5ever's `HtmlSerializer::write_comment`: the text between `<!--` and `-->`.
#[verifier::external_body]
pub(crate) fn comment_markup(text: &str) -> (r: String)
    ensures
        r@ == comment_text(text@),
{
    let mut ser = HtmlSerializer::new(Vec::new(), SerializeOpts::default());
    let _ = ser.write_comment(text);
    String::from_utf8(ser.writer).unwrap_or_default()
}

/// html5ever's `HtmlSerializer::write_doctype`: the name between `<!DOCTYPE ` and `>`.
#[verifier::external_body]
pub(crate) fn doctype_markup(name: &str) -> (r: String)
    ensures
        r@ == doctype_text(name@),
{
    let mut ser = HtmlSerializer::new(Vec::new(), SerializeOpts::default());
    let _ = ser.write_doctype(name);
    String::from_utf8(ser.writer).unwrap_or_default()
}

} // verus!
