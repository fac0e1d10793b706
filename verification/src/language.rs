//! Content-based language detection for files, and what it reports: a
//! display glyph and an RGB color, both optional.
use vstd::prelude::*;

verus! {

/// What the content classifier reports for a file.
#[derive(Debug, Clone)]
pub struct Language {
    /// A display glyph for the language, if it has one.
    pub glyph: Option<String>,
    /// An RGB color for the language, if it has one.
    pub rgb: Option<(u8, u8, u8)>,
}

impl View for Language {
    type V = (Option<Seq<char>>, Option<(u8, u8, u8)>);

    open spec fn view(&self) -> (Option<Seq<char>>, Option<(u8, u8, u8)>) {
        (self.glyph.deep_view(), self.rgb)
    }
}

/// What content detection reports for a file name and content prefix: a
/// function of the name, the prefix and the read limit alone.
pub uninterp spec fn spec_detected_language(
    name: Seq<char>,
    content: Seq<u8>,
    limit: nat,
) -> Option<(Option<Seq<char>>, Option<(u8, u8, u8)>)>;

/// Relies on `gengo_language::Language::pick`, `nerd_font_glyph` and `rgb`:
/// `pick` chooses a language from the file name and a bounded content
/// prefix alone, and the other two are fixed tables of that language.
#[verifier::external_body]
pub(crate) fn detect_language(name: &str, content: &Vec<u8>, limit: usize) -> (r: Option<Language>)
    ensures
        r matches Some(l) ==> spec_detected_language(name@, content@, limit as nat) == Some(l@),
        r is None ==> spec_detected_language(name@, content@, limit as nat) is None,
{
    let picked = gengo_language::Language::pick(std::path::Path::new(name), content, limit);
    picked.map(|language| Language {
        glyph: language.nerd_font_glyph().map(String::from),
        rgb: Some(language.rgb()),
    })
}

} // verus!
