//! Which options a note is rendered with, and what is allowed to stay in the
//! HTML that comes out.
//!
//! The renderer is `comrak`, the sanitizer is `ammonia`. What they return is
//! given a name each; this module fixes what they are called with.

use vstd::prelude::*;

verus! {

/// The switches of the renderer that the editor sets. Every other option of
/// the renderer keeps its default.
#[derive(Debug, Clone, Copy)]
pub struct RenderOptions {
    /// Text between tildes is struck through.
    pub strikethrough: bool,
    /// Tables are recognised.
    pub table: bool,
    /// List items may start with a box to tick.
    pub tasklist: bool,
    /// Footnotes are recognised.
    pub footnotes: bool,
    /// Addresses become links without further markup.
    pub autolink: bool,
    /// Description lists are recognised.
    pub description_lists: bool,
    /// Text between carets is raised.
    pub superscript: bool,
    /// HTML in the note is passed through instead of being left out.
    pub raw_html: bool,
    /// Each block element carries the position of its source in a
    /// `data-sourcepos` attribute, for scrolling the preview with the editor.
    pub sourcepos: bool,
}

/// The HTML that the renderer makes of a note under the given options.
pub uninterp spec fn rendered_html(text: Seq<char>, options: RenderOptions) -> Seq<char>;

/// The HTML that the sanitizer leaves of `html` when, beyond what it allows
/// by default, the attributes named in `attributes` may stand on any element.
pub uninterp spec fn sanitized_html(html: Seq<char>, attributes: Seq<Seq<char>>) -> Seq<char>;

/// The options of the plain preview: every extension, raw HTML passed
/// through, no source positions.
pub open spec fn plain_options() -> RenderOptions {
    RenderOptions {
        strikethrough: true,
        table: true,
        tasklist: true,
        footnotes: true,
        autolink: true,
        description_lists: true,
        superscript: true,
        raw_html: true,
        sourcepos: false,
    }
}

/// The options of the synchronised preview: those of the plain preview, and
/// source positions on top.
pub open spec fn sourcepos_options() -> RenderOptions {
    RenderOptions { sourcepos: true, ..plain_options() }
}

/// The attributes that the sanitizer lets stand on any element: the source
/// position, and the two that carry styling.
pub open spec fn kept_attributes() -> Seq<Seq<char>> {
    seq!["data-sourcepos"@, "class"@, "style"@]
}

/// Texts of a sequence of string slices, in order.
pub open spec fn names(attributes: Seq<&str>) -> Seq<Seq<char>> {
    attributes.map_values(|a: &str| a@)
}

/// Calls `comrak::markdown_to_html` with options that are the defaults of
/// `comrak::Options` but for the nine switches, which are copied from
/// `options`. The result depends on the text and the switches alone, and
/// [`rendered_html`] is its name.
#[verifier::external_body]
fn to_html(text: &str, options: &RenderOptions) -> (html: String)
    ensures
        html@ == rendered_html(text@, *options),
{
    let mut o = comrak::Options::default();
    o.extension.strikethrough = options.strikethrough;
    o.extension.table = options.table;
    o.extension.tasklist = options.tasklist;
    o.extension.footnotes = options.footnotes;
    o.extension.autolink = options.autolink;
    o.extension.description_lists = options.description_lists;
    o.extension.superscript = options.superscript;
    o.render.unsafe_ = options.raw_html;
    o.render.sourcepos = options.sourcepos;
    comrak::markdown_to_html(text, &o)
}

/// Calls `ammonia::Builder::clean` on the default builder to which
/// `attributes` were added with `add_generic_attributes`, and serializes the
/// document that comes back. The result depends on the HTML and the attribute
/// names alone, and [`sanitized_html`] is its name.
///
/// The sanitizer panics on a builder that lets `rel` stand while it sets that
/// attribute itself, which the default builder does. So `rel` must not be
/// among the attributes.
#[verifier::external_body]
fn sanitize(html: &str, attributes: &Vec<&str>) -> (clean: String)
    requires
        forall|i: int| 0 <= i < attributes@.len() ==> (#[trigger] attributes@[i])@ != "rel"@,
    ensures
        clean@ == sanitized_html(html@, names(attributes@)),
{
    let mut builder = ammonia::Builder::default();
    builder.add_generic_attributes(attributes.iter().copied());
    builder.clean(html).to_string()
}

/// Renders a note for the plain preview.
pub fn render_markdown(text: String) -> (html: String)
    ensures
        html@ == rendered_html(text@, plain_options()),
{
    let options = RenderOptions {
        strikethrough: true,
        table: true,
        tasklist: true,
        footnotes: true,
        autolink: true,
        description_lists: true,
        superscript: true,
        raw_html: true,
        sourcepos: false,
    };
    to_html(text.as_str(), &options)
}

/// Renders a note for the synchronised preview and sanitizes the result.
///
/// The note is rendered with source positions and with its raw HTML passed
/// through. The sanitizer then removes what it does not allow; the source
/// positions, classes and styles stay.
pub fn markdown_render(text: String) -> (html: String)
    ensures
        html@ == sanitized_html(rendered_html(text@, sourcepos_options()), kept_attributes()),
{
    let options = RenderOptions {
        strikethrough: true,
        table: true,
        tasklist: true,
        footnotes: true,
        autolink: true,
        description_lists: true,
        superscript: true,
        raw_html: true,
        sourcepos: true,
    };
    let rendered = to_html(text.as_str(), &options);
    let attributes: Vec<&str> = vec!["data-sourcepos", "class", "style"];
    proof {
        reveal_strlit("data-sourcepos");
        reveal_strlit("class");
        reveal_strlit("style");
        reveal_strlit("rel");
        assert(names(attributes@) =~= kept_attributes());
        assert(attributes@[0]@.len() == 14);
        assert(attributes@[1]@.len() == 5);
        assert(attributes@[2]@.len() == 5);
        assert("rel"@.len() == 3);
    }
    sanitize(rendered.as_str(), &attributes)
}

} // verus!
