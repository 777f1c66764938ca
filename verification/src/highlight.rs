//! Syntax highlighting: a text, a language tag and a theme name give an
//! ordered sequence of styled spans that covers the text exactly. The
//! syntax definitions, the themes and the line highlighter are those of
//! `syntect`.

use crate::text::{concat, lemma_concat_push, lemma_lines_with_endings, lines_with_endings,
    newline_only_last};
use syntect::easy::HighlightLines;
use syntect::highlighting::{Theme, ThemeSet};
use syntect::parsing::{SyntaxReference, SyntaxSet};
use syntect::util::LinesWithEndings;
use vstd::prelude::*;
use vstd::string::StringExecFns;

verus! {

#[verifier::external_type_specification]
#[verifier::external_body]
pub struct ExSyntaxSet(syntect::parsing::SyntaxSet);

#[verifier::external_type_specification]
#[verifier::external_body]
pub struct ExSyntaxReference(syntect::parsing::SyntaxReference);

#[verifier::external_type_specification]
#[verifier::external_body]
pub struct ExThemeSet(syntect::highlighting::ThemeSet);

#[verifier::external_type_specification]
#[verifier::external_body]
pub struct ExTheme(syntect::highlighting::Theme);

#[verifier::external_type_specification]
#[verifier::external_body]
pub struct ExHighlightLines<'a>(syntect::easy::HighlightLines<'a>);

#[verifier::external_type_specification]
#[verifier::external_body]
pub struct ExHighlightError(syntect::Error);

/// The syntax that a syntax set finds under a name: the last of its
/// syntaxes that has the name, if one has.
pub uninterp spec fn syntax_named(set: SyntaxSet, name: Seq<char>) -> Option<SyntaxReference>;

/// The syntax that a syntax set finds under a file extension: the last of
/// its syntaxes that has the extension, letter case aside, if one has.
pub uninterp spec fn syntax_for_extension(set: SyntaxSet, extension: Seq<char>) -> Option<
    SyntaxReference,
>;

/// The theme that a theme set holds under a name, if it holds one.
pub uninterp spec fn theme_of(set: ThemeSet, name: Seq<char>) -> Option<Theme>;

/// The foreground colour that a theme sets for text that no rule styles,
/// where it sets one.
pub uninterp spec fn theme_colour(theme: Theme) -> Option<Rgb>;

/// The set is sound as `syntect` loads or builds one from definitions
/// that its parser accepts: each of its syntaxes is linked, and every
/// pattern in it compiles.
pub uninterp spec fn set_is_linked(set: SyntaxSet) -> bool;

/// The syntax is linked: it has the contexts that the parser starts from,
/// and what it stores of its contexts unpacks.
pub uninterp spec fn syntax_is_linked(syntax: SyntaxReference) -> bool;

/// The line highlighter in its initial state for a syntax and a theme.
pub uninterp spec fn start_state(syntax: SyntaxReference, theme: Theme) -> HighlightLines<'static>;

/// The pieces that a line highlighter in a given state makes of a line,
/// each with the foreground colour of its style; nothing where it fails.
pub uninterp spec fn pieces_of(state: HighlightLines<'_>, line: Seq<char>, set: SyntaxSet) -> Option<
    Seq<(Rgb, Seq<char>)>,
>;

/// The state in which a line highlighter is after a line.
pub uninterp spec fn state_after(
    state: HighlightLines<'_>,
    line: Seq<char>,
    set: SyntaxSet,
) -> HighlightLines<'_>;

/// `SyntaxSet::load_defaults_newlines` of `syntect`: the bundled syntax
/// definitions, for lines that keep their `'\n'`. The set is sound;
/// nothing is claimed of which syntaxes it holds.
pub assume_specification[ syntect::parsing::SyntaxSet::load_defaults_newlines ]() -> (set:
    SyntaxSet)
    ensures
        set_is_linked(set),
;

/// `ThemeSet::load_defaults` of `syntect`: the bundled themes, among them,
/// as its documentation lists, the dark and the light `base16-ocean`.
pub assume_specification[ syntect::highlighting::ThemeSet::load_defaults ]() -> (set: ThemeSet)
    ensures
        theme_of(set, "base16-ocean.dark"@) is Some,
        theme_of(set, "base16-ocean.light"@) is Some,
;

/// `SyntaxSet::find_syntax_by_name` of `syntect`: the syntax of the set
/// under that name, which is linked where the set is sound.
pub assume_specification<'a>[ syntect::parsing::SyntaxSet::find_syntax_by_name ](
    set: &'a SyntaxSet,
    name: &str,
) -> (found: Option<&'a SyntaxReference>)
    ensures
        is_found(found, syntax_named(*set, name@)),
        found matches Some(syntax) ==> (set_is_linked(*set) ==> syntax_is_linked(*syntax)),
;

/// `SyntaxSet::find_syntax_by_extension` of `syntect`: the syntax of the
/// set under that file extension, letter case aside, which is linked where
/// the set is sound.
pub assume_specification<'a>[ syntect::parsing::SyntaxSet::find_syntax_by_extension ](
    set: &'a SyntaxSet,
    extension: &str,
) -> (found: Option<&'a SyntaxReference>)
    ensures
        is_found(found, syntax_for_extension(*set, extension@)),
        found matches Some(syntax) ==> (set_is_linked(*set) ==> syntax_is_linked(*syntax)),
;

/// `SyntaxSet::find_syntax_plain_text` of `syntect`: the syntax of the set
/// under the name `"Plain Text"`. It panics where the set has none, which
/// the precondition rules out.
pub assume_specification[ syntect::parsing::SyntaxSet::find_syntax_plain_text ](
    set: &SyntaxSet,
) -> (found: &SyntaxReference)
    requires
        syntax_named(*set, "Plain Text"@) is Some,
    ensures
        syntax_named(*set, "Plain Text"@) == Some(*found),
        set_is_linked(*set) ==> syntax_is_linked(*found),
;

/// `HighlightLines::new` of `syntect`: a line highlighter in its initial
/// state for a syntax and a theme. It panics on a syntax that lacks the
/// contexts the parser starts from, which the precondition rules out.
pub assume_specification<'a>[ syntect::easy::HighlightLines::<'a>::new ](
    syntax: &SyntaxReference,
    theme: &'a Theme,
) -> (lines: HighlightLines<'a>)
    requires
        syntax_is_linked(*syntax),
    ensures
        lines == start_state(*syntax, *theme),
;

/// The lookup in the public map `themes` of a `syntect` theme set: the
/// theme that the set holds under the name.
#[verifier::external_body]
fn theme_named<'a>(set: &'a ThemeSet, name: &str) -> (found: Option<&'a Theme>)
    ensures
        match found {
            Some(theme) => theme_of(*set, name@) == Some(*theme),
            None => theme_of(*set, name@) is None,
        },
{
    set.themes.get(name)
}

/// The foreground colour that a `syntect` theme sets for text that no rule
/// styles, where it sets one.
#[verifier::external_body]
fn theme_foreground(theme: &Theme) -> (colour: Option<Rgb>)
    ensures
        colour == theme_colour(*theme),
{
    match theme.settings.foreground {
        Some(c) => Some(Rgb { r: c.r, g: c.g, b: c.b }),
        None => None,
    }
}

/// `LinesWithEndings` of `syntect`: the text cut after each `'\n'`, in
/// order, each piece with its ending.
#[verifier::external_body]
fn split_with_endings(text: &str) -> (lines: Vec<String>)
    ensures
        lines@.len() == lines_with_endings(text@).len(),
        forall|i: int|
            0 <= i < lines@.len() ==> (#[trigger] lines@[i])@ == lines_with_endings(text@)[i],
{
    LinesWithEndings::from(text).map(String::from).collect()
}

/// `HighlightLines::highlight_line` of `syntect`: the pieces that the
/// highlighter in its state makes of one line, each with the foreground
/// colour of its style, or the crate's error; the state moves on.
///
/// The crate's parser may panic on a pattern that does not compile and on
/// a set other than the one that the highlighter's syntax came from. The
/// precondition rules both out. Nothing is claimed of what the pieces
/// hold: they need not cover the line.
#[verifier::external_body]
fn highlight_line(lines: &mut HighlightLines<'_>, line: &str, set: &SyntaxSet) -> (outcome: Result<
    Vec<(Rgb, String)>,
    syntect::Error,
>)
    requires
        set_is_linked(*set),
        state_fits(*old(lines), *set),
    ensures
        *final(lines) == state_after(*old(lines), line@, *set),
        match outcome {
            Ok(pieces) => pieces_of(*old(lines), line@, *set) == Some(piece_views(pieces@)),
            Err(_) => pieces_of(*old(lines), line@, *set) is None,
        },
{
    match lines.highlight_line(line, set) {
        Ok(ranges) => Ok(
            ranges.into_iter().map(
                |(style, piece)| (
                    Rgb { r: style.foreground.r, g: style.foreground.g, b: style.foreground.b },
                    String::from(piece),
                ),
            ).collect(),
        ),
        Err(e) => Err(e),
    }
}

/// What a lookup found is what the set holds.
pub open spec fn is_found(found: Option<&SyntaxReference>, held: Option<SyntaxReference>) -> bool {
    match found {
        Some(syntax) => held == Some(*syntax),
        None => held is None,
    }
}

/// The syntax is one that the set finds, under a name or an extension.
pub open spec fn syntax_of_set(set: SyntaxSet, syntax: SyntaxReference) -> bool {
    exists|tag: Seq<char>|
        #![trigger syntax_named(set, tag)]
        #![trigger syntax_for_extension(set, tag)]
        syntax_named(set, tag) == Some(syntax) || syntax_for_extension(set, tag) == Some(syntax)
}

/// The state of a line highlighter after the first `fed` of `lines`.
pub open spec fn state_at(
    start: HighlightLines<'_>,
    lines: Seq<Seq<char>>,
    set: SyntaxSet,
    fed: int,
) -> HighlightLines<'_>
    decreases fed,
{
    if fed <= 0 {
        start
    } else {
        state_after(state_at(start, lines, set, fed - 1), lines[fed - 1], set)
    }
}

/// The state is one that a highlighter for a syntax of the set reaches,
/// fed lines with that set.
pub open spec fn state_fits(state: HighlightLines<'_>, set: SyntaxSet) -> bool {
    exists|syntax: SyntaxReference, theme: Theme, lines: Seq<Seq<char>>, fed: int|
        syntax_of_set(set, syntax) && state == #[trigger] state_at(
            start_state(syntax, theme),
            lines,
            set,
            fed,
        )
}

/// The pieces of a line as plain values.
pub open spec fn piece_views(pieces: Seq<(Rgb, String)>) -> Seq<(Rgb, Seq<char>)> {
    pieces.map_values(|p: (Rgb, String)| (p.0, p.1@))
}

/// A colour by its red, green and blue parts.
#[derive(Clone, Copy, PartialEq, Eq, Structural, Debug)]
pub struct Rgb {
    pub r: u8,
    pub g: u8,
    pub b: u8,
}

/// A font family.
#[derive(Clone, Copy, PartialEq, Eq, Structural, Debug)]
pub enum FontFamily {
    Monospace,
    Proportional,
}

/// A font by its family and its size in points.
#[derive(Clone, Copy, PartialEq, Eq, Structural, Debug)]
pub struct FontRef {
    pub family: FontFamily,
    pub size: u32,
}

/// A run of text in one style.
#[derive(Clone, Debug)]
pub struct StyledSpan {
    pub text: String,
    pub foreground: Rgb,
    pub font: FontRef,
}

/// What a styled span stands for.
pub struct StyledSpanView {
    pub text: Seq<char>,
    pub foreground: Rgb,
    pub font: FontRef,
}

impl View for StyledSpan {
    type V = StyledSpanView;

    open spec fn view(&self) -> StyledSpanView {
        StyledSpanView { text: self.text@, foreground: self.foreground, font: self.font }
    }
}

/// Which definition styles a language tag.
#[derive(Clone, Copy, PartialEq, Eq, Structural, Debug)]
pub enum SyntaxChoice {
    /// The syntax whose name is the tag.
    ByName,
    /// A syntax that has the tag as a file extension.
    ByExtension,
    /// The plain-text syntax.
    PlainText,
    /// No syntax at all: the set has not even one for plain text.
    Unstyled,
}

/// The font that highlighting gives every span: monospace, 14 points.
pub open spec fn default_font() -> FontRef {
    FontRef { family: FontFamily::Monospace, size: 14 }
}

/// The colour of text where no theme gives one.
pub open spec fn black() -> Rgb {
    Rgb { r: 0, g: 0, b: 0 }
}

/// The texts of the spans joined end to end.
pub open spec fn spans_text(spans: Seq<StyledSpan>) -> Seq<char>
    decreases spans.len(),
{
    if spans.len() == 0 {
        Seq::empty()
    } else {
        spans_text(spans.drop_last()) + spans.last()@.text
    }
}

/// The spans cover `text` with no gap and no overlap, none of them is
/// empty, none runs across a line ending, and each is in the default font.
pub open spec fn is_highlight_of(spans: Seq<StyledSpan>, text: Seq<char>) -> bool {
    &&& spans_text(spans) == text
    &&& forall|i: int|
        0 <= i < spans.len() ==> {
            &&& (#[trigger] spans[i])@.text.len() > 0
            &&& newline_only_last(spans[i]@.text)
            &&& spans[i]@.font == default_font()
        }
}

/// The views of spans.
pub open spec fn span_views(spans: Seq<StyledSpan>) -> Seq<StyledSpanView> {
    spans.map_values(|s: StyledSpan| s@)
}

/// The span that a piece becomes: its text in its colour, in the default
/// font.
pub open spec fn piece_span(piece: (Rgb, Seq<char>)) -> StyledSpanView {
    StyledSpanView { text: piece.1, foreground: piece.0, font: default_font() }
}

/// The span of a whole line in one colour.
pub open spec fn whole_line_span(line: Seq<char>, colour: Rgb) -> StyledSpanView {
    StyledSpanView { text: line, foreground: colour, font: default_font() }
}

/// The spans of a text that nothing styles: its lines, endings kept, one
/// span each, all in one colour and in the default font.
pub open spec fn plain_views(text: Seq<char>, colour: Rgb) -> Seq<StyledSpanView> {
    lines_with_endings(text).map_values(|line: Seq<char>| whole_line_span(line, colour))
}

/// The spans are those of `text` with nothing styled.
pub open spec fn is_plain_of(spans: Seq<StyledSpan>, text: Seq<char>, colour: Rgb) -> bool {
    span_views(spans) == plain_views(text, colour)
}

/// Which level of the fallback styles a language tag: the syntax of that
/// name, else one with that file extension, else the plain-text syntax.
pub open spec fn syntax_choice(set: SyntaxSet, language: Seq<char>) -> SyntaxChoice {
    if syntax_named(set, language) is Some {
        SyntaxChoice::ByName
    } else if syntax_for_extension(set, language) is Some {
        SyntaxChoice::ByExtension
    } else if syntax_named(set, "Plain Text"@) is Some {
        SyntaxChoice::PlainText
    } else {
        SyntaxChoice::Unstyled
    }
}

/// The syntax that styles a language tag: the one of that name, else one
/// with that file extension, else the one named `"Plain Text"`; none only
/// where the set has not even that.
pub open spec fn resolved_syntax(set: SyntaxSet, language: Seq<char>) -> Option<SyntaxReference> {
    if syntax_named(set, language) is Some {
        syntax_named(set, language)
    } else if syntax_for_extension(set, language) is Some {
        syntax_for_extension(set, language)
    } else {
        syntax_named(set, "Plain Text"@)
    }
}

/// The colour of text that no rule of a theme styles: the theme's own
/// foreground, or black where it names none.
pub open spec fn fallback_colour(theme: Theme) -> Rgb {
    match theme_colour(theme) {
        Some(colour) => colour,
        None => black(),
    }
}

/// The pieces that a highlighter gave for a line can stand for the line:
/// none is empty, and joined they are the line.
pub open spec fn pieces_fit(pieces: Seq<(Rgb, Seq<char>)>, line: Seq<char>) -> bool {
    &&& forall|i: int| 0 <= i < pieces.len() ==> (#[trigger] pieces[i]).1.len() > 0
    &&& concat(pieces.map_values(|p: (Rgb, Seq<char>)| p.1)) == line
}

/// The pieces that a highlighter gave, as plain values.
pub open spec fn given_pieces(pieces: Option<Vec<(Rgb, String)>>) -> Option<
    Seq<(Rgb, Seq<char>)>,
> {
    match pieces {
        Some(p) => Some(piece_views(p@)),
        None => None,
    }
}

/// The spans of one line, given what the highlighter made of it: its
/// pieces in the default font where they fit the line; else the whole
/// line as one span in the fallback colour, or no span for an empty line.
pub open spec fn line_span_views(
    line: Seq<char>,
    pieces: Option<Seq<(Rgb, Seq<char>)>>,
    fallback: Rgb,
) -> Seq<StyledSpanView> {
    if pieces is Some && pieces_fit(pieces->0, line) {
        pieces->0.map_values(|p: (Rgb, Seq<char>)| piece_span(p))
    } else if line.len() > 0 {
        seq![whole_line_span(line, fallback)]
    } else {
        Seq::empty()
    }
}

/// The spans are those of the line, given what the highlighter made of it.
pub open spec fn is_line_spans(
    spans: Seq<StyledSpan>,
    line: Seq<char>,
    pieces: Option<Seq<(Rgb, Seq<char>)>>,
    fallback: Rgb,
) -> bool {
    span_views(spans) == line_span_views(line, pieces, fallback)
}

/// The spans of the first `upto` of `lines`, each line styled by a line
/// highlighter that started in `start` and was fed the lines before it.
pub open spec fn styled_views(
    start: HighlightLines<'_>,
    lines: Seq<Seq<char>>,
    set: SyntaxSet,
    fallback: Rgb,
    upto: int,
) -> Seq<StyledSpanView>
    decreases upto,
{
    if upto <= 0 {
        Seq::empty()
    } else {
        styled_views(start, lines, set, fallback, upto - 1) + line_span_views(
            lines[upto - 1],
            pieces_of(state_at(start, lines, set, upto - 1), lines[upto - 1], set),
            fallback,
        )
    }
}

/// The spans of a text under a syntax and a theme.
///
/// With both, the lines of the text, endings kept, go one by one through
/// a line highlighter that starts afresh, and each gives its spans. With
/// no syntax nothing is styled and every line is one span in the theme's
/// fallback colour; with no theme every line is one span in black.
pub open spec fn highlight_views(
    set: SyntaxSet,
    syntax: Option<SyntaxReference>,
    theme: Option<Theme>,
    text: Seq<char>,
) -> Seq<StyledSpanView> {
    match theme {
        Some(t) => match syntax {
            Some(s) => styled_views(
                start_state(s, t),
                lines_with_endings(text),
                set,
                fallback_colour(t),
                lines_with_endings(text).len() as int,
            ),
            None => plain_views(text, fallback_colour(t)),
        },
        None => plain_views(text, black()),
    }
}

pub proof fn lemma_spans_text_append(front: Seq<StyledSpan>, back: Seq<StyledSpan>)
    ensures
        spans_text(front + back) == spans_text(front) + spans_text(back),
    decreases back.len(),
{
    if back.len() == 0 {
        assert(front + back =~= front);
        assert(spans_text(front) + spans_text(back) =~= spans_text(front));
    } else {
        assert((front + back).drop_last() =~= front + back.drop_last());
        assert((front + back).last() == back.last());
        lemma_spans_text_append(front, back.drop_last());
        assert((spans_text(front) + spans_text(back.drop_last())) + back.last()@.text =~= spans_text(
            front,
        ) + (spans_text(back.drop_last()) + back.last()@.text));
    }
}

/// Spans that carry the given texts, one each, join to what the texts
/// join to.
pub proof fn lemma_spans_text_of_texts(spans: Seq<StyledSpan>, texts: Seq<Seq<char>>)
    requires
        spans.len() == texts.len(),
        forall|i: int| 0 <= i < spans.len() ==> (#[trigger] spans[i])@.text == texts[i],
    ensures
        spans_text(spans) == concat(texts),
    decreases spans.len(),
{
    if spans.len() > 0 {
        lemma_spans_text_of_texts(spans.drop_last(), texts.drop_last());
    }
}

/// Pieces that are not empty and join to a line with `'\n'` at most at
/// its end hold `'\n'` at most at their own end.
pub proof fn lemma_pieces_keep_line(pieces: Seq<Seq<char>>, line: Seq<char>)
    requires
        concat(pieces) == line,
        forall|i: int| 0 <= i < pieces.len() ==> (#[trigger] pieces[i]).len() > 0,
        newline_only_last(line),
    ensures
        forall|i: int| 0 <= i < pieces.len() ==> newline_only_last(#[trigger] pieces[i]),
    decreases pieces.len(),
{
    if pieces.len() > 0 {
        let front = pieces.drop_last();
        let last = pieces.last();
        let joined = concat(front);
        assert(line == joined + last);
        assert(last.len() > 0);
        assert forall|k: int| 0 <= k < joined.len() implies joined[k] != '\n' by {
            assert(joined[k] == line[k]);
        }
        lemma_pieces_keep_line(front, joined);
        assert forall|i: int| 0 <= i < pieces.len() implies newline_only_last(
            #[trigger] pieces[i],
        ) by {
            if i < pieces.len() - 1 {
                assert(pieces[i] == front[i]);
            } else {
                assert forall|k: int| 0 <= k < last.len() - 1 implies last[k] != '\n' by {
                    assert(last[k] == line[joined.len() + k]);
                }
            }
        }
    }
}

/// The spans of a line that is not empty and holds `'\n'` at most at its
/// end are a highlight of that line.
pub proof fn lemma_line_spans_cover(
    spans: Seq<StyledSpan>,
    line: Seq<char>,
    pieces: Option<Seq<(Rgb, Seq<char>)>>,
    fallback: Rgb,
)
    requires
        is_line_spans(spans, line, pieces, fallback),
        line.len() > 0,
        newline_only_last(line),
    ensures
        is_highlight_of(spans, line),
{
    let views = line_span_views(line, pieces, fallback);
    assert(spans.len() == views.len());
    assert forall|i: int| 0 <= i < spans.len() implies (#[trigger] spans[i])@ == views[i] by {
        assert(span_views(spans)[i] == spans[i]@);
    }
    if pieces is Some && pieces_fit(pieces->0, line) {
        let texts = pieces->0.map_values(|p: (Rgb, Seq<char>)| p.1);
        assert forall|i: int| 0 <= i < spans.len() implies (#[trigger] spans[i])@.text
            == texts[i] by {
            assert(spans[i]@ == views[i]);
        }
        lemma_spans_text_of_texts(spans, texts);
        assert forall|i: int| 0 <= i < texts.len() implies (#[trigger] texts[i]).len() > 0 by {
            assert(texts[i] == pieces->0[i].1);
        }
        lemma_pieces_keep_line(texts, line);
        assert forall|i: int| 0 <= i < spans.len() implies {
            &&& (#[trigger] spans[i])@.text.len() > 0
            &&& newline_only_last(spans[i]@.text)
            &&& spans[i]@.font == default_font()
        } by {
            assert(spans[i]@ == views[i]);
            assert(spans[i]@.text == texts[i]);
        }
    } else {
        assert(spans[0]@ == views[0]);
        assert(spans.drop_last() =~= Seq::<StyledSpan>::empty());
        assert(spans_text(spans.drop_last()) =~= Seq::<char>::empty());
        assert(spans_text(spans) =~= line);
    }
}

/// A tag that names no syntax and no extension is styled as the tag
/// `"Plain Text"` is, where the set has a syntax of that name: the spans
/// under any theme are the same.
pub proof fn lemma_unknown_tag_is_plain_text(
    set: SyntaxSet,
    language: Seq<char>,
    theme: Option<Theme>,
    text: Seq<char>,
)
    requires
        syntax_named(set, language) is None,
        syntax_for_extension(set, language) is None,
        syntax_named(set, "Plain Text"@) is Some,
    ensures
        syntax_choice(set, language) == SyntaxChoice::PlainText,
        resolved_syntax(set, language) == resolved_syntax(set, "Plain Text"@),
        highlight_views(set, resolved_syntax(set, language), theme, text) == highlight_views(
            set,
            resolved_syntax(set, "Plain Text"@),
            theme,
            text,
        ),
{
}

/// A tag that is no syntax's name but the file extension of a syntax is
/// styled as the name under which the set finds that syntax: lookup goes
/// by name first, then by extension.
pub proof fn lemma_extension_tag_is_its_syntax(
    set: SyntaxSet,
    tag: Seq<char>,
    name: Seq<char>,
    theme: Option<Theme>,
    text: Seq<char>,
)
    requires
        syntax_named(set, tag) is None,
        syntax_for_extension(set, tag) is Some,
        syntax_named(set, name) == syntax_for_extension(set, tag),
    ensures
        syntax_choice(set, tag) == SyntaxChoice::ByExtension,
        resolved_syntax(set, tag) == resolved_syntax(set, name),
        highlight_views(set, resolved_syntax(set, tag), theme, text) == highlight_views(
            set,
            resolved_syntax(set, name),
            theme,
            text,
        ),
{
}

/// The font that highlighting gives every span.
pub fn default_font_ref() -> (font: FontRef)
    ensures
        font == default_font(),
{
    FontRef { family: FontFamily::Monospace, size: 14 }
}

/// Whether the pieces that a highlighter gave for a line can stand for it.
pub fn pieces_fit_line(pieces: &Vec<(Rgb, String)>, line: &str) -> (fit: bool)
    ensures
        fit == pieces_fit(piece_views(pieces@), line@),
{
    let ghost texts = pieces@.map_values(|p: (Rgb, String)| p.1@);
    assert(texts =~= piece_views(pieces@).map_values(|p: (Rgb, Seq<char>)| p.1));
    let mut joined = String::new();
    let mut i: usize = 0;
    assert(texts.take(0) =~= Seq::<Seq<char>>::empty());
    while i < pieces.len()
        invariant
            i <= pieces.len(),
            texts == pieces@.map_values(|p: (Rgb, String)| p.1@),
            joined@ == concat(texts.take(i as int)),
            forall|j: int| 0 <= j < i ==> (#[trigger] pieces@[j]).1@.len() > 0,
        decreases pieces.len() - i,
    {
        if pieces[i].1.as_str().is_empty() {
            assert(pieces@[i as int].1@.len() == 0);
            assert(piece_views(pieces@)[i as int].1.len() == 0);
            return false;
        }
        joined.append(pieces[i].1.as_str());
        proof {
            assert(texts.take(i + 1) =~= texts.take(i as int).push(texts[i as int]));
            lemma_concat_push(texts.take(i as int), texts[i as int]);
        }
        i += 1;
    }
    assert(texts.take(pieces@.len() as int) =~= texts);
    assert forall|j: int| 0 <= j < piece_views(pieces@).len() implies (#[trigger] piece_views(
        pieces@,
    )[j]).1.len() > 0 by {
        assert(pieces@[j].1@.len() > 0);
    }
    joined == String::from_str(line)
}

/// The spans of one line, given what the highlighter made of it.
///
/// `pieces` holds the coloured pieces of the line, or nothing where the
/// highlighter failed. Pieces that fit the line become its spans; where
/// they do not, or there are none, the whole line is one span in the
/// fallback colour, so that no character is lost or doubled.
pub fn line_spans(line: &str, pieces: Option<Vec<(Rgb, String)>>, fallback: Rgb) -> (spans: Vec<
    StyledSpan,
>)
    ensures
        is_line_spans(spans@, line@, given_pieces(pieces), fallback),
{
    let mut spans: Vec<StyledSpan> = Vec::new();
    match &pieces {
        Some(found) => {
            if pieces_fit_line(found, line) {
                let mut i: usize = 0;
                while i < found.len()
                    invariant
                        i <= found.len(),
                        spans@.len() == i,
                        forall|j: int|
                            0 <= j < i ==> (#[trigger] spans@[j])@ == piece_span(
                                (found@[j].0, found@[j].1@),
                            ),
                    decreases found.len() - i,
                {
                    spans.push(
                        StyledSpan {
                            text: found[i].1.clone(),
                            foreground: found[i].0,
                            font: default_font_ref(),
                        },
                    );
                    i += 1;
                }
                assert(span_views(spans@) =~= piece_views(found@).map_values(
                    |p: (Rgb, Seq<char>)| piece_span(p),
                ));
                return spans;
            }
        },
        None => {},
    }
    if !line.is_empty() {
        spans.push(
            StyledSpan {
                text: String::from_str(line),
                foreground: fallback,
                font: default_font_ref(),
            },
        );
        assert(span_views(spans@) =~= seq![whole_line_span(line@, fallback)]);
    } else {
        assert(span_views(spans@) =~= Seq::<StyledSpanView>::empty());
    }
    spans
}

/// The spans of a text that nothing styles: its lines, endings kept, one
/// span each, in the given colour.
pub fn plain_spans(text: &str, colour: Rgb) -> (spans: Vec<StyledSpan>)
    ensures
        is_plain_of(spans@, text@, colour),
        is_highlight_of(spans@, text@),
{
    let lines = split_with_endings(text);
    let ghost wanted = lines_with_endings(text@);
    proof {
        lemma_lines_with_endings(text@, 0);
        assert(wanted.take(0) =~= Seq::<Seq<char>>::empty());
    }
    let mut spans: Vec<StyledSpan> = Vec::new();
    let mut i: usize = 0;
    while i < lines.len()
        invariant
            i <= lines.len(),
            wanted == lines_with_endings(text@),
            lines@.len() == wanted.len(),
            forall|k: int| 0 <= k < lines@.len() ==> (#[trigger] lines@[k])@ == wanted[k],
            forall|k: int|
                0 <= k < wanted.len() ==> (#[trigger] wanted[k]).len() > 0 && newline_only_last(
                    wanted[k],
                ),
            spans@.len() == i,
            forall|k: int| 0 <= k < i ==> (#[trigger] spans@[k])@ == whole_line_span(wanted[k], colour),
            is_highlight_of(spans@, concat(wanted.take(i as int))),
        decreases lines.len() - i,
    {
        let line = lines[i].as_str();
        let mut more = line_spans(line, None, colour);
        proof {
            assert(line@ == wanted[i as int]);
            lemma_line_spans_cover(more@, line@, None, colour);
            assert(line_span_views(line@, None, colour) =~= seq![whole_line_span(line@, colour)]);
            assert(span_views(more@).len() == more@.len());
            assert(more@.len() == 1);
            assert(span_views(more@)[0] == more@[0]@);
            lemma_spans_text_append(spans@, more@);
            assert(wanted.take(i + 1) =~= wanted.take(i as int).push(wanted[i as int]));
            lemma_concat_push(wanted.take(i as int), wanted[i as int]);
        }
        spans.append(&mut more);
        i += 1;
    }
    proof {
        assert(wanted.take(wanted.len() as int) =~= wanted);
        assert(text@.subrange(0, text@.len() as int) =~= text@);
        assert(span_views(spans@) =~= plain_views(text@, colour));
    }
    spans
}

/// The spans in another font. Texts and colours stay as they are.
pub fn with_font(spans: Vec<StyledSpan>, font: FontRef) -> (restyled: Vec<StyledSpan>)
    ensures
        restyled@.len() == spans@.len(),
        forall|i: int|
            0 <= i < restyled@.len() ==> (#[trigger] restyled@[i])@ == (StyledSpanView {
                font,
                ..spans@[i]@
            }),
        spans_text(restyled@) == spans_text(spans@),
{
    let mut restyled: Vec<StyledSpan> = Vec::new();
    let mut i: usize = 0;
    while i < spans.len()
        invariant
            i <= spans.len(),
            restyled@.len() == i,
            forall|j: int|
                0 <= j < i ==> (#[trigger] restyled@[j])@ == (StyledSpanView {
                    font,
                    ..spans@[j]@
                }),
        decreases spans.len() - i,
    {
        restyled.push(
            StyledSpan { text: spans[i].text.clone(), foreground: spans[i].foreground, font },
        );
        i += 1;
    }
    proof {
        let texts = spans@.map_values(|s: StyledSpan| s@.text);
        lemma_spans_text_of_texts(spans@, texts);
        lemma_spans_text_of_texts(restyled@, texts);
    }
    restyled
}

/// The syntax definitions and themes that highlighting draws on.
pub struct SyntaxHighlighter {
    pub ps: SyntaxSet,
    pub ts: ThemeSet,
}

impl SyntaxHighlighter {
    /// The highlighter's syntax set is sound.
    pub open spec fn wf(&self) -> bool {
        set_is_linked(self.ps)
    }

    /// Whether the highlighter has a theme of that name.
    pub open spec fn knows_theme(&self, theme: Seq<char>) -> bool {
        theme_of(self.ts, theme) is Some
    }

    /// What highlighting gives for a text, a language tag and a theme
    /// name: the spans of the text under the syntax that the tag resolves
    /// to and the theme of that name.
    pub open spec fn highlighted(
        &self,
        text: Seq<char>,
        language: Seq<char>,
        theme: Seq<char>,
    ) -> Seq<StyledSpanView> {
        highlight_views(
            self.ps,
            resolved_syntax(self.ps, language),
            theme_of(self.ts, theme),
            text,
        )
    }

    /// A highlighter over the bundled syntax definitions and themes. It
    /// has the themes of both editor modes.
    pub fn new() -> (highlighter: SyntaxHighlighter)
        ensures
            highlighter.wf(),
            highlighter.knows_theme("base16-ocean.dark"@),
            highlighter.knows_theme("base16-ocean.light"@),
    {
        SyntaxHighlighter { ps: SyntaxSet::load_defaults_newlines(), ts: ThemeSet::load_defaults() }
    }

    /// The syntax for a language tag, with the level of the fallback that
    /// gave it: by name, else by extension, else plain text. There is no
    /// syntax only where the set has none for plain text either.
    fn resolve(&self, language: &str) -> (found: (Option<&SyntaxReference>, SyntaxChoice))
        ensures
            found.1 == syntax_choice(self.ps, language@),
            is_found(found.0, resolved_syntax(self.ps, language@)),
            found.0 is None <==> found.1 == SyntaxChoice::Unstyled,
            found.0 matches Some(syntax) ==> syntax_of_set(self.ps, *syntax) && (self.wf()
                ==> syntax_is_linked(*syntax)),
    {
        match self.ps.find_syntax_by_name(language) {
            Some(syntax) => {
                assert(syntax_named(self.ps, language@) == Some(*syntax));
                (Some(syntax), SyntaxChoice::ByName)
            },
            None => match self.ps.find_syntax_by_extension(language) {
                Some(syntax) => {
                    assert(syntax_for_extension(self.ps, language@) == Some(*syntax));
                    (Some(syntax), SyntaxChoice::ByExtension)
                },
                None => if self.ps.find_syntax_by_name("Plain Text").is_some() {
                    let syntax = self.ps.find_syntax_plain_text();
                    assert(syntax_named(self.ps, "Plain Text"@) == Some(*syntax));
                    (Some(syntax), SyntaxChoice::PlainText)
                } else {
                    (None, SyntaxChoice::Unstyled)
                },
            },
        }
    }

    /// Which level of the fallback styles a language tag: the syntax of
    /// that name, else one with that file extension, else plain text. An
    /// unknown tag is no failure.
    pub fn syntax_choice(&self, language: &str) -> (choice: SyntaxChoice)
        ensures
            choice == syntax_choice(self.ps, language@),
    {
        self.resolve(language).1
    }

    /// The styled spans of `text` under a theme.
    fn highlight_with(&self, text: &str, language: &str, theme: &Theme) -> (spans: Vec<StyledSpan>)
        requires
            self.wf(),
        ensures
            span_views(spans@) == highlight_views(
                self.ps,
                resolved_syntax(self.ps, language@),
                Some(*theme),
                text@,
            ),
            is_highlight_of(spans@, text@),
    {
        let fallback = match theme_foreground(theme) {
            Some(colour) => colour,
            None => Rgb { r: 0, g: 0, b: 0 },
        };
        let syntax = match self.resolve(language).0 {
            Some(syntax) => syntax,
            None => {
                return plain_spans(text, fallback);
            },
        };
        let lines = split_with_endings(text);
        let ghost wanted = lines_with_endings(text@);
        let ghost start = start_state(*syntax, *theme);
        proof {
            lemma_lines_with_endings(text@, 0);
            assert(wanted.take(0) =~= Seq::<Seq<char>>::empty());
        }
        let mut state = HighlightLines::new(syntax, theme);
        let mut spans: Vec<StyledSpan> = Vec::new();
        let mut i: usize = 0;
        assert(span_views(spans@) =~= styled_views(start, wanted, self.ps, fallback, 0));
        while i < lines.len()
            invariant
                i <= lines.len(),
                self.wf(),
                syntax_of_set(self.ps, *syntax),
                start == start_state(*syntax, *theme),
                lines@.len() == wanted.len(),
                forall|k: int| 0 <= k < lines@.len() ==> (#[trigger] lines@[k])@ == wanted[k],
                forall|k: int|
                    0 <= k < wanted.len() ==> (#[trigger] wanted[k]).len() > 0
                        && newline_only_last(wanted[k]),
                state == state_at(start, wanted, self.ps, i as int),
                span_views(spans@) == styled_views(start, wanted, self.ps, fallback, i as int),
                is_highlight_of(spans@, concat(wanted.take(i as int))),
            decreases lines.len() - i,
        {
            let line = lines[i].as_str();
            let ghost before = state;
            assert(state_fits(state, self.ps));
            let pieces = match highlight_line(&mut state, line, &self.ps) {
                Ok(found) => Some(found),
                Err(_) => None,
            };
            let ghost given = given_pieces(pieces);
            let mut more = line_spans(line, pieces, fallback);
            proof {
                assert(line@ == wanted[i as int]);
                assert(given == pieces_of(before, line@, self.ps));
                lemma_line_spans_cover(more@, line@, given, fallback);
                lemma_spans_text_append(spans@, more@);
                assert(span_views(spans@ + more@) =~= span_views(spans@) + span_views(more@));
                assert(wanted.take(i + 1) =~= wanted.take(i as int).push(wanted[i as int]));
                lemma_concat_push(wanted.take(i as int), wanted[i as int]);
            }
            spans.append(&mut more);
            i += 1;
        }
        proof {
            assert(wanted.take(wanted.len() as int) =~= wanted);
            assert(text@.subrange(0, text@.len() as int) =~= text@);
        }
        spans
    }

    /// The styled spans of `text`, or nothing where the highlighter has no
    /// theme of that name.
    ///
    /// The spans are exactly those that the syntax the tag resolves to
    /// and the theme give, line by line; a tag that names no syntax is
    /// styled as plain text. They cover the text, whatever it holds.
    pub fn try_highlight(&self, text: &str, language: &str, theme: &str) -> (spans: Option<
        Vec<StyledSpan>,
    >)
        requires
            self.wf(),
        ensures
            spans is Some <==> self.knows_theme(theme@),
            spans matches Some(found) ==> span_views(found@) == self.highlighted(
                text@,
                language@,
                theme@,
            ) && is_highlight_of(found@, text@),
    {
        match theme_named(&self.ts, theme) {
            Some(found) => Some(self.highlight_with(text, language, found)),
            None => None,
        }
    }

    /// The styled spans of `text`, whatever the text, the language tag and
    /// the theme name.
    ///
    /// The spans are exactly those that the syntax the tag resolves to
    /// and the theme of that name give, line by line: the pieces that the
    /// line highlighter makes of each line where they fit it, else the
    /// line as one span. A tag that names no syntax is styled as plain
    /// text. Under a theme name that the highlighter does not have nothing
    /// is styled: each line is one span, in black. In every case the spans
    /// cover the text exactly.
    pub fn highlight(&self, text: &str, language: &str, theme: &str) -> (spans: Vec<StyledSpan>)
        requires
            self.wf(),
        ensures
            span_views(spans@) == self.highlighted(text@, language@, theme@),
            is_highlight_of(spans@, text@),
    {
        match theme_named(&self.ts, theme) {
            Some(found) => self.highlight_with(text, language, found),
            None => plain_spans(text, Rgb { r: 0, g: 0, b: 0 }),
        }
    }
}

/// The name of the theme for a dark or a light editor.
pub fn theme_name(dark: bool) -> (name: &'static str)
    ensures
        name@ == (if dark {
            "base16-ocean.dark"@
        } else {
            "base16-ocean.light"@
        }),
{
    if dark {
        "base16-ocean.dark"
    } else {
        "base16-ocean.light"
    }
}

} // verus!
