//! The document that is handed to the typesetter, and the text that is made
//! of its answer.
//!
//! Typesetting itself happens outside of this crate. What is decided here is
//! which source text the typesetter sees and how its pages or its errors
//! become the one string that the editor shows.

use vstd::prelude::*;
use vstd::string::StringExecFns;

verus! {

/// What the typesetter is given: one source text and, optionally, the place
/// on disk that the document belongs to.
pub struct SimpleWorld {
    source: String,
    root: Option<String>,
}

/// Mathematical value of a [`SimpleWorld`].
pub struct WorldView {
    pub source: Seq<char>,
    pub root: Option<Seq<char>>,
}

/// The text of an optional string.
pub open spec fn optional_text(text: Option<String>) -> Option<Seq<char>> {
    match text {
        Some(t) => Some(t@),
        None => None,
    }
}

impl View for SimpleWorld {
    type V = WorldView;

    closed spec fn view(&self) -> WorldView {
        WorldView { source: self.source@, root: optional_text(self.root) }
    }
}

impl SimpleWorld {
    /// A world whose only source is `content`.
    pub fn new(content: String, root_path: Option<String>) -> (world: SimpleWorld)
        ensures
            world@ == (WorldView { source: content@, root: optional_text(root_path) }),
    {
        SimpleWorld { source: content, root: root_path }
    }

    /// The source text of the document.
    pub fn source_text(&self) -> (text: &str)
        ensures
            text@ == self@.source,
    {
        self.source.as_str()
    }

    /// The place on disk that the document belongs to, if it has one.
    pub fn root(&self) -> (root: &Option<String>)
        ensures
            optional_text(*root) == self@.root,
    {
        &self.root
    }

    /// The text of a source file that the typesetter asks for: the document
    /// itself for the main file, and an empty source for any other.
    pub fn source(&self, main: bool) -> (text: &str)
        ensures
            text@ == if main {
                self@.source
            } else {
                Seq::<char>::empty()
            },
    {
        if main {
            self.source.as_str()
        } else {
            proof {
                reveal_strlit("");
                assert(""@ =~= Seq::<char>::empty());
            }
            ""
        }
    }

    /// The date that documents see as today, as year, month and day. It is
    /// fixed, so that a document is typeset the same on every day.
    pub fn today(&self) -> (date: (i32, u8, u8))
        ensures
            date == (2024i32, 1u8, 1u8),
    {
        (2024, 1, 1)
    }
}

/// The settings that are put in front of every document, so that formulas
/// find a font with mathematical glyphs.
pub open spec fn default_preamble() -> Seq<char> {
    "#set text(font: \"New Computer Modern\")\n"@
}

/// The source text that is typeset for `content`: the default settings,
/// then the content.
pub fn full_source(content: &str) -> (full: String)
    ensures
        full@ == default_preamble() + content@,
{
    let mut full = String::from_str("#set text(font: \"New Computer Modern\")\n");
    full.append(content);
    full
}

/// Texts of a sequence of strings, in order.
pub open spec fn texts(strings: Seq<String>) -> Seq<Seq<char>> {
    strings.map_values(|s: String| s@)
}

/// The pages one after the other, each followed by a line feed.
pub open spec fn joined_pages(pages: Seq<Seq<char>>) -> Seq<char>
    decreases pages.len(),
{
    if pages.len() == 0 {
        Seq::empty()
    } else {
        joined_pages(pages.drop_last()) + pages.last() + seq!['\n']
    }
}

/// How a message reads when it is formatted for debugging: quoted, with its
/// special characters escaped.
pub uninterp spec fn debug_text(message: Seq<char>) -> Seq<char>;

/// One line of the error report for each message: the word `Error`, a colon,
/// the message as [`debug_text`] gives it, and a line feed.
pub open spec fn error_report(messages: Seq<Seq<char>>) -> Seq<char>
    decreases messages.len(),
{
    if messages.len() == 0 {
        Seq::empty()
    } else {
        error_report(messages.drop_last()) + "Error: "@ + debug_text(messages.last()) + seq!['\n']
    }
}

/// Formats a string with the `{:?}` directive of `format!`, which is the
/// `Debug` implementation of `str`. That text depends on the string alone,
/// and [`debug_text`] is its name.
#[verifier::external_body]
fn debug_format(message: &str) -> (quoted: String)
    ensures
        quoted@ == debug_text(message@),
{
    format!("{:?}", message)
}

/// Turns the answer of the typesetter into the answer for the editor.
///
/// `typeset` holds the pages as vector graphics, in order, or the messages of
/// the errors that stopped the typesetter. Pages are joined into one text,
/// each followed by a line feed. Errors are joined into a report of one line
/// per message.
pub fn compile(typeset: Result<Vec<String>, Vec<String>>) -> (rendered: Result<String, String>)
    ensures
        typeset matches Ok(pages) ==> rendered matches Ok(svg) && svg@ == joined_pages(
            texts(pages@),
        ),
        typeset matches Err(messages) ==> rendered matches Err(report) && report@ == error_report(
            texts(messages@),
        ),
{
    match typeset {
        Ok(pages) => {
            let mut svg = String::new();
            let mut i: usize = 0;
            proof {
                assert(texts(pages@).take(0) =~= Seq::<Seq<char>>::empty());
                reveal_strlit("\n");
            }
            while i < pages.len()
                invariant
                    i <= pages.len(),
                    svg@ == joined_pages(texts(pages@).take(i as int)),
                    "\n"@ == seq!['\n'],
                decreases pages.len() - i,
            {
                proof {
                    assert(texts(pages@).take(i + 1).drop_last() =~= texts(pages@).take(i as int));
                }
                svg.append(pages[i].as_str());
                svg.append("\n");
                i += 1;
            }
            proof {
                assert(texts(pages@).take(i as int) =~= texts(pages@));
            }
            Ok(svg)
        },
        Err(messages) => {
            let mut report = String::new();
            let mut i: usize = 0;
            proof {
                assert(texts(messages@).take(0) =~= Seq::<Seq<char>>::empty());
                reveal_strlit("\n");
            }
            while i < messages.len()
                invariant
                    i <= messages.len(),
                    report@ == error_report(texts(messages@).take(i as int)),
                    "\n"@ == seq!['\n'],
                decreases messages.len() - i,
            {
                proof {
                    assert(texts(messages@).take(i + 1).drop_last() =~= texts(messages@).take(
                        i as int,
                    ));
                }
                let quoted = debug_format(messages[i].as_str());
                report.append("Error: ");
                report.append(quoted.as_str());
                report.append("\n");
                i += 1;
            }
            proof {
                assert(texts(messages@).take(i as int) =~= texts(messages@));
            }
            Err(report)
        },
    }
}

} // verus!
