use vstd::prelude::*;
use crate::glyph::StyledGlyph;

verus! {

/// What a message is: its emphasised title, its body and its style token.
pub struct MessageView {
    pub title: Seq<char>,
    pub body: Seq<char>,
    pub color: u32,
}

/// The glyphs a message is drawn with: one per character, the title's with
/// emphasis, all of them in the message's style.
pub open spec fn glyphs_of(m: MessageView) -> Seq<StyledGlyph> {
    styled(m.title, m.color, true) + styled(m.body, m.color, false)
}

/// The glyph of character `ch`.
pub open spec fn glyph(ch: char, style: u32, bold: bool) -> StyledGlyph {
    StyledGlyph { ch, style, bold }
}

/// Each character of `s` as a glyph in `style`, with emphasis `bold`.
pub open spec fn styled(s: Seq<char>, style: u32, bold: bool) -> Seq<StyledGlyph> {
    Seq::new(s.len(), |i: int| glyph(s[i], style, bold))
}

/// The direction of a quote's change, which selects a message's style.
#[derive(Clone, Copy, Debug, PartialEq, Eq, Structural)]
pub enum Trend {
    Up,
    Down,
    Flat,
}

/// The style that `Message::new_from_report` picks for a trend.
pub open spec fn trend_style(trend: Trend, good: u32, bad: u32, neutral: u32) -> u32 {
    match trend {
        Trend::Up => good,
        Trend::Down => bad,
        Trend::Flat => neutral,
    }
}

/// A piece of text shown in a streak. Its glyphs are rendered once, when
/// it is made, and the message never changes afterwards.
pub struct Message {
    title: String,
    body: String,
    color: u32,
    text: Vec<StyledGlyph>,
}

impl View for Message {
    type V = MessageView;

    closed spec fn view(&self) -> MessageView {
        MessageView { title: self.title@, body: self.body@, color: self.color }
    }
}

/// Appends the glyphs of `s`, each in `style` with emphasis `bold`.
fn push_chars(text: &mut Vec<StyledGlyph>, s: &String, style: u32, bold: bool)
    ensures
        final(text)@ == old(text)@ + styled(s@, style, bold),
{
    let n = s.as_str().unicode_len();
    let ghost start = text@;
    assert(text@ =~= start + styled(s@.take(0), style, bold));
    for i in 0..n
        invariant
            n == s@.len(),
            text@ == start + styled(s@.take(i as int), style, bold),
    {
        let c = s.as_str().get_char(i);
        text.push(StyledGlyph { ch: c, style, bold });
        assert(text@ =~= start + styled(s@.take(i + 1), style, bold));
    }
    assert(s@.take(n as int) =~= s@);
}

impl Message {
    #[verifier::type_invariant]
    spec fn rendered(&self) -> bool {
        self.text@ == glyphs_of(self@)
    }

    /// A message with the given title, body and style.
    pub fn new(title: String, body: String, color: u32) -> (m: Message)
        ensures
            m@ == (MessageView { title: title@, body: body@, color }),
    {
        let mut text: Vec<StyledGlyph> = Vec::new();
        push_chars(&mut text, &title, color, true);
        push_chars(&mut text, &body, color, false);
        assert(text@ =~= glyphs_of(MessageView { title: title@, body: body@, color }));
        Message { title, body, color, text }
    }

    /// The message for a quote: the ticker as title, the formatted change as
    /// body, and a style picked by the direction of the change: `good` when
    /// it went up, `bad` when it went down, `neutral` otherwise.
    pub fn new_from_report(ticker: String, body: String, trend: Trend, good: u32, bad: u32, neutral: u32) -> (m: Message)
        ensures
            m@ == (MessageView { title: ticker@, body: body@, color: trend_style(trend, good, bad, neutral) }),
    {
        let color = match trend {
            Trend::Up => good,
            Trend::Down => bad,
            Trend::Flat => neutral,
        };
        Message::new(ticker, body, color)
    }

    /// The number of glyphs the message is drawn with: title plus body,
    /// counted in characters.
    pub fn len(&self) -> (r: usize)
        ensures
            r == self@.title.len() + self@.body.len(),
    {
        proof {
            use_type_invariant(self);
        }
        self.text.len()
    }

    /// The glyphs the message is drawn with.
    pub fn glyphs(&self) -> (r: &Vec<StyledGlyph>)
        ensures
            r@ == glyphs_of(self@),
    {
        proof {
            use_type_invariant(self);
        }
        &self.text
    }
}

} // verus!
