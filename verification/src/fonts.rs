//! The fonts of the composer.

use vstd::prelude::*;

verus! {

/// A font that comes with the application.
#[derive(Clone, Copy, Debug, PartialEq, Eq, Structural)]
pub enum ComposerFont {
    MapleMono,
    JetBrainsMono,
}

/// The other of the two fonts.
pub open spec fn other_font(font: ComposerFont) -> ComposerFont {
    match font {
        ComposerFont::MapleMono => ComposerFont::JetBrainsMono,
        ComposerFont::JetBrainsMono => ComposerFont::MapleMono,
    }
}

impl ComposerFont {
    pub fn toggled(self) -> (font: Self)
        ensures
            font == other_font(self),
    {
        match self {
            ComposerFont::MapleMono => ComposerFont::JetBrainsMono,
            ComposerFont::JetBrainsMono => ComposerFont::MapleMono,
        }
    }

    /// The file of the font among the assets.
    pub fn file(self) -> (path: &'static str)
        ensures
            path@ == match self {
                ComposerFont::MapleMono => "fonts/MapleMono-CN-Regular.ttf"@,
                ComposerFont::JetBrainsMono => "fonts/JetBrainsMono-Regular.ttf"@,
            },
    {
        match self {
            ComposerFont::MapleMono => "fonts/MapleMono-CN-Regular.ttf",
            ComposerFont::JetBrainsMono => "fonts/JetBrainsMono-Regular.ttf",
        }
    }
}

/// The font in effect.
#[derive(Clone, Copy, Debug, PartialEq, Eq, Structural)]
pub struct ActiveComposerFont(pub ComposerFont);

impl ActiveComposerFont {
    /// The font in effect, out of what was saved.
    pub fn init(saved: ComposerFont) -> (active: Self)
        ensures
            active == ActiveComposerFont(saved),
    {
        ActiveComposerFont(saved)
    }

    pub fn active(&self) -> (font: ComposerFont)
        ensures
            font == self.0,
    {
        self.0
    }

    /// Goes over to the other font.
    pub fn toggle(&mut self)
        ensures
            *final(self) == ActiveComposerFont(other_font(old(self).0)),
    {
        self.0 = self.0.toggled();
    }
}

/// Going over to the other font twice leads back.
pub proof fn toggling_twice_leads_back(font: ComposerFont)
    ensures
        other_font(other_font(font)) == font,
        other_font(font) != font,
{
}

} // verus!
