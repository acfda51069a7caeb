//! Texts that may carry invisible styling, and what the layout reads of them:
//! the text as it is written out and the same text with the styling taken away.

use vstd::prelude::*;
use crate::text::{lines, count_lines};

verus! {

/// What `strip_ansi_escapes::strip` leaves of the text, its bytes read back as
/// UTF-8; `None` where the call reports an error.
pub uninterp spec fn ansi_stripped(s: Seq<char>) -> Option<Seq<char>>;

/// Calls `strip_ansi_escapes::strip` on the bytes of the text. The call feeds
/// them to a terminal parser that writes the printable characters and the line
/// feeds into a buffer in memory and drops the escape sequences; what comes back
/// depends on the text alone. The bytes are converted back to a `String`.
#[verifier::external_body]
fn strip_escapes(s: &str) -> (r: Option<String>)
    ensures
        ansi_stripped(s@) == match r {
            Some(t) => Some(t@),
            None => None,
        },
{
    match strip_ansi_escapes::strip(s) {
        Ok(bytes) => Some(String::from_utf8_lossy(&bytes).into_owned()),
        Err(_) => None,
    }
}

/// What was stripped of a text, or the text itself where nothing could be
/// stripped of it.
pub open spec fn stripped_or_same(text: Seq<char>, stripped: Option<Seq<char>>) -> Seq<char> {
    match stripped {
        Some(t) => t,
        None => text,
    }
}

/// A text without its ANSI escape sequences. Where they cannot be stripped the
/// text stays as it is.
pub open spec fn ansi_unstyled(s: Seq<char>) -> Seq<char> {
    stripped_or_same(s, ansi_stripped(s))
}

/// The plain form of a text, given what was stripped of it: the stripped text,
/// or the text itself where nothing could be stripped of it.
pub fn unstyled_from(text: &str, stripped: Option<String>) -> (out: String)
    ensures
        out@ == stripped_or_same(text@, stripped.deep_view()),
{
    match stripped {
        Some(t) => t,
        None => String::from_str(text),
    }
}

/// A text whose written form may hold characters that take no room on the
/// screen. An implementation says what is written out (`text`) and what of it
/// is visible (`plain`). The layout measures `plain` and writes `text`, so the
/// two should have the same line breaks and differ in invisible characters only.
pub trait Unstyle {
    /// The text as it is written out, styling included.
    spec fn text(&self) -> Seq<char>;

    /// The text without its styling.
    spec fn plain(&self) -> Seq<char>;

    /// Returns the text as it is written out.
    fn styled(&self) -> (s: String)
        ensures
            s@ == self.text(),
    ;

    /// Returns the text without the characters that only style it.
    fn unstyle(&self) -> (s: String)
        ensures
            s@ == self.plain(),
    ;

    /// Returns the number of lines of the written text: one more than it has
    /// line breaks.
    fn nb_of_lines(&self) -> (n: usize)
        ensures
            n == lines(self.text()).len(),
    {
        let s = self.styled();
        count_lines(s.as_str())
    }
}

impl Unstyle for String {
    open spec fn text(&self) -> Seq<char> {
        self@
    }

    open spec fn plain(&self) -> Seq<char> {
        self@
    }

    fn styled(&self) -> (s: String) {
        self.clone()
    }

    fn unstyle(&self) -> (s: String) {
        self.clone()
    }
}

/// A text with ANSI escape sequences in it.
pub struct AsciiEscapedString(pub String);

impl AsciiEscapedString {
    /// Makes an `AsciiEscapedString` of the given text.
    pub fn from(s: &str) -> (r: Self)
        ensures
            r.0@ == s@,
            r.text() == s@,
            r.plain() == ansi_unstyled(s@),
    {
        Self(String::from_str(s))
    }
}

impl Unstyle for AsciiEscapedString {
    open spec fn text(&self) -> Seq<char> {
        self.0@
    }

    open spec fn plain(&self) -> Seq<char> {
        ansi_unstyled(self.0@)
    }

    fn styled(&self) -> (s: String) {
        self.0.clone()
    }

    fn unstyle(&self) -> (s: String) {
        let stripped = strip_escapes(self.0.as_str());
        unstyled_from(self.0.as_str(), stripped)
    }
}

/// The two texts that the layout reads of a styled text.
pub struct TextView {
    pub text: Seq<char>,
    pub plain: Seq<char>,
}

impl TextView {
    /// The view of a text without styling.
    pub open spec fn of_plain(s: Seq<char>) -> TextView {
        TextView { text: s, plain: s }
    }

    /// The view of any styled text.
    pub open spec fn of<U: Unstyle>(u: &U) -> TextView {
        TextView { text: u.text(), plain: u.plain() }
    }
}

/// A styled text, held as its written form and its plain form.
pub struct StyledText {
    pub text: String,
    pub plain: String,
}

impl View for StyledText {
    type V = TextView;

    open spec fn view(&self) -> TextView {
        TextView { text: self.text@, plain: self.plain@ }
    }
}

impl DeepView for StyledText {
    type V = TextView;

    open spec fn deep_view(&self) -> TextView {
        self@
    }
}

impl StyledText {
    /// Reads the written and the plain form of any styled text.
    pub fn new<U: Unstyle>(u: &U) -> (t: Self)
        ensures
            t@ == TextView::of(u),
    {
        StyledText { text: u.styled(), plain: u.unstyle() }
    }

    /// A text without styling.
    pub fn from(s: &str) -> (t: Self)
        ensures
            t@ == TextView::of_plain(s@),
    {
        StyledText { text: String::from_str(s), plain: String::from_str(s) }
    }

    /// A second copy of the text.
    pub fn duplicate(&self) -> (t: Self)
        ensures
            t@ == self@,
    {
        StyledText { text: self.text.clone(), plain: self.plain.clone() }
    }
}

impl Unstyle for StyledText {
    open spec fn text(&self) -> Seq<char> {
        self.text@
    }

    open spec fn plain(&self) -> Seq<char> {
        self.plain@
    }

    fn styled(&self) -> (s: String) {
        self.text.clone()
    }

    fn unstyle(&self) -> (s: String) {
        self.plain.clone()
    }
}

} // verus!
