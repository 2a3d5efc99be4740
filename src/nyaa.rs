use vstd::prelude::*;
use crate::query::Query;
use crate::category::{Category, code_of, code_string, lemma_code_of_injective};

verus! {

/// The site's address, without a trailing slash.
pub const BASE_URL: &'static str = "https://nyaa.si";

/// The categories of the general-audience site.
#[derive(Debug, Clone, Copy, Hash, PartialEq, Eq, Structural)]
pub enum NyaaCategory {
    All,
    Anime,
    AnimeMusicVideo,
    AnimeEnglishTranslated,
    AnimeNonEnglishTranslated,
    AnimeRaw,
    Audio,
    AudioLossless,
    AudioLossy,
    Literature,
    LiteratureEnglishTranslated,
    LiteratureNonEnglishTranslated,
    LiteratureRaw,
    LiveAction,
    LiveActionEnglishTranslated,
    LiveActionIdol,
    LiveActionNonEnglishTranslated,
    LiveActionRaw,
    Pictures,
    PicturesGraphics,
    PicturesPhotos,
    Software,
    SoftwareApplications,
    SoftwareGames,
}

impl NyaaCategory {
    /// The group and the subcategory of the category.
    pub open spec fn group_sub(self) -> (nat, nat) {
        match self {
            NyaaCategory::All => (0, 0),
            NyaaCategory::Anime => (1, 0),
            NyaaCategory::AnimeMusicVideo => (1, 1),
            NyaaCategory::AnimeEnglishTranslated => (1, 2),
            NyaaCategory::AnimeNonEnglishTranslated => (1, 3),
            NyaaCategory::AnimeRaw => (1, 4),
            NyaaCategory::Audio => (2, 0),
            NyaaCategory::AudioLossless => (2, 1),
            NyaaCategory::AudioLossy => (2, 2),
            NyaaCategory::Literature => (3, 0),
            NyaaCategory::LiteratureEnglishTranslated => (3, 1),
            NyaaCategory::LiteratureNonEnglishTranslated => (3, 2),
            NyaaCategory::LiteratureRaw => (3, 3),
            NyaaCategory::LiveAction => (4, 0),
            NyaaCategory::LiveActionEnglishTranslated => (4, 1),
            NyaaCategory::LiveActionIdol => (4, 2),
            NyaaCategory::LiveActionNonEnglishTranslated => (4, 3),
            NyaaCategory::LiveActionRaw => (4, 4),
            NyaaCategory::Pictures => (5, 0),
            NyaaCategory::PicturesGraphics => (5, 1),
            NyaaCategory::PicturesPhotos => (5, 2),
            NyaaCategory::Software => (6, 0),
            NyaaCategory::SoftwareApplications => (6, 1),
            NyaaCategory::SoftwareGames => (6, 2),
        }
    }

    /// The category of a group and a subcategory, if there is one.
    pub open spec fn of_group_sub(g: nat, s: nat) -> Option<NyaaCategory> {
        if g == 0 && s == 0 {
            Some(NyaaCategory::All)
        } else if g == 1 && s == 0 {
            Some(NyaaCategory::Anime)
        } else if g == 1 && s == 1 {
            Some(NyaaCategory::AnimeMusicVideo)
        } else if g == 1 && s == 2 {
            Some(NyaaCategory::AnimeEnglishTranslated)
        } else if g == 1 && s == 3 {
            Some(NyaaCategory::AnimeNonEnglishTranslated)
        } else if g == 1 && s == 4 {
            Some(NyaaCategory::AnimeRaw)
        } else if g == 2 && s == 0 {
            Some(NyaaCategory::Audio)
        } else if g == 2 && s == 1 {
            Some(NyaaCategory::AudioLossless)
        } else if g == 2 && s == 2 {
            Some(NyaaCategory::AudioLossy)
        } else if g == 3 && s == 0 {
            Some(NyaaCategory::Literature)
        } else if g == 3 && s == 1 {
            Some(NyaaCategory::LiteratureEnglishTranslated)
        } else if g == 3 && s == 2 {
            Some(NyaaCategory::LiteratureNonEnglishTranslated)
        } else if g == 3 && s == 3 {
            Some(NyaaCategory::LiteratureRaw)
        } else if g == 4 && s == 0 {
            Some(NyaaCategory::LiveAction)
        } else if g == 4 && s == 1 {
            Some(NyaaCategory::LiveActionEnglishTranslated)
        } else if g == 4 && s == 2 {
            Some(NyaaCategory::LiveActionIdol)
        } else if g == 4 && s == 3 {
            Some(NyaaCategory::LiveActionNonEnglishTranslated)
        } else if g == 4 && s == 4 {
            Some(NyaaCategory::LiveActionRaw)
        } else if g == 5 && s == 0 {
            Some(NyaaCategory::Pictures)
        } else if g == 5 && s == 1 {
            Some(NyaaCategory::PicturesGraphics)
        } else if g == 5 && s == 2 {
            Some(NyaaCategory::PicturesPhotos)
        } else if g == 6 && s == 0 {
            Some(NyaaCategory::Software)
        } else if g == 6 && s == 1 {
            Some(NyaaCategory::SoftwareApplications)
        } else if g == 6 && s == 2 {
            Some(NyaaCategory::SoftwareGames)
        } else {
            None
        }
    }

    pub fn group_sub_exec(&self) -> (r: (u8, u8))
        ensures
            r.0 as nat == self.group_sub().0,
            r.1 as nat == self.group_sub().1,
    {
        match self {
            NyaaCategory::All => (0, 0),
            NyaaCategory::Anime => (1, 0),
            NyaaCategory::AnimeMusicVideo => (1, 1),
            NyaaCategory::AnimeEnglishTranslated => (1, 2),
            NyaaCategory::AnimeNonEnglishTranslated => (1, 3),
            NyaaCategory::AnimeRaw => (1, 4),
            NyaaCategory::Audio => (2, 0),
            NyaaCategory::AudioLossless => (2, 1),
            NyaaCategory::AudioLossy => (2, 2),
            NyaaCategory::Literature => (3, 0),
            NyaaCategory::LiteratureEnglishTranslated => (3, 1),
            NyaaCategory::LiteratureNonEnglishTranslated => (3, 2),
            NyaaCategory::LiteratureRaw => (3, 3),
            NyaaCategory::LiveAction => (4, 0),
            NyaaCategory::LiveActionEnglishTranslated => (4, 1),
            NyaaCategory::LiveActionIdol => (4, 2),
            NyaaCategory::LiveActionNonEnglishTranslated => (4, 3),
            NyaaCategory::LiveActionRaw => (4, 4),
            NyaaCategory::Pictures => (5, 0),
            NyaaCategory::PicturesGraphics => (5, 1),
            NyaaCategory::PicturesPhotos => (5, 2),
            NyaaCategory::Software => (6, 0),
            NyaaCategory::SoftwareApplications => (6, 1),
            NyaaCategory::SoftwareGames => (6, 2),
        }
    }
}

impl Category for NyaaCategory {
    open spec fn code(&self) -> Seq<char> {
        code_of(self.group_sub().0, self.group_sub().1)
    }

    open spec fn spec_default() -> NyaaCategory {
        NyaaCategory::All
    }

    fn to_code(&self) -> (r: String) {
        let (g, s) = self.group_sub_exec();
        code_string(g, s)
    }

    fn default_value() -> (r: NyaaCategory) {
        NyaaCategory::All
    }
}

impl Default for NyaaCategory {
    fn default() -> (r: NyaaCategory)
        ensures
            r == NyaaCategory::All,
    {
        NyaaCategory::All
    }
}

/// The default category is "All", whose code is "0_0"; and no two
/// categories share a code.
pub proof fn lemma_nyaa_codes(a: NyaaCategory, b: NyaaCategory)
    ensures
        NyaaCategory::spec_default().code() == seq!['0', '_', '0'],
        a.code() == b.code() ==> a == b,
{
    assert(NyaaCategory::of_group_sub(a.group_sub().0, a.group_sub().1) == Some(a));
    assert(NyaaCategory::of_group_sub(b.group_sub().0, b.group_sub().1) == Some(b));
    if a.code() == b.code() {
        lemma_code_of_injective(a.group_sub().0, a.group_sub().1, b.group_sub().0, b.group_sub().1);
    }
}

/// A query of this site.
pub type NyaaQuery = Query<NyaaCategory>;

} // verus!
