//! A minimal rendering of values as HTML elements: the element's content
//! between a start tag and an end tag.

use vstd::prelude::*;

verus! {

/// A value that can stand inside an HTML element.
pub trait HtmlContent {
    /// The text that stands between the tags.
    spec fn content(&self) -> Seq<char>;

    /// The text that stands between the tags.
    fn get_content(&self) -> (s: String)
        ensures
            s@ == self.content(),
    ;
}

/// The start tag of the element `name`.
pub open spec fn start_tag_of(name: Seq<char>) -> Seq<char> {
    seq!['<'] + name + seq!['>']
}

/// The end tag of the element `name`.
pub open spec fn end_tag_of(name: Seq<char>) -> Seq<char> {
    seq!['<', '/'] + name + seq!['>']
}

/// A type of HTML element. Its tags are fixed by the type: they hold the
/// type's name in lower case.
pub trait HtmlElement: HtmlContent {
    /// The element's name: that of the type, in lower case.
    spec fn element_name() -> Seq<char>;

    /// The tag that opens the element.
    fn start_tag() -> (s: String)
        ensures
            s@ == start_tag_of(Self::element_name()),
    ;

    /// The tag that closes the element.
    fn end_tag() -> (s: String)
        ensures
            s@ == end_tag_of(Self::element_name()),
    ;

    /// The element as HTML: its content between its two tags.
    fn to_html(&self) -> (s: String)
        ensures
            s@ == start_tag_of(Self::element_name()) + self.content() + end_tag_of(
                Self::element_name(),
            ),
    {
        let mut s = Self::start_tag();
        let content = self.get_content();
        s.append(content.as_str());
        let end = Self::end_tag();
        s.append(end.as_str());
        s
    }
}

/// A first-level heading.
pub struct H1 {
    heading: String,
}

impl H1 {
    /// The heading with the given text.
    pub fn new(heading: &str) -> (h: Self)
        ensures
            h.content() == heading@,
    {
        H1 { heading: heading.to_owned() }
    }
}

impl HtmlContent for H1 {
    closed spec fn content(&self) -> Seq<char> {
        self.heading@
    }

    fn get_content(&self) -> (s: String) {
        self.heading.clone()
    }
}

impl HtmlElement for H1 {
    open spec fn element_name() -> Seq<char> {
        seq!['h', '1']
    }

    fn start_tag() -> (s: String) {
        proof {
            reveal_strlit("<h1>");
        }
        assert("<h1>"@ =~= start_tag_of(Self::element_name()));
        "<h1>".to_owned()
    }

    fn end_tag() -> (s: String) {
        proof {
            reveal_strlit("</h1>");
        }
        assert("</h1>"@ =~= end_tag_of(Self::element_name()));
        "</h1>".to_owned()
    }
}

} // verus!
