use vstd::prelude::*;
use crate::query::Query;
use crate::category::{Category, code_of, code_string, lemma_code_of_injective};

verus! {

/// The site's address, without a trailing slash.
pub const BASE_URL: &'static str = "https://sukebei.nyaa.si";

/// The categories of the adult-audience site.
#[derive(Debug, Clone, Copy, Hash, PartialEq, Eq, Structural)]
pub enum SukebeiCategory {
    All,
    Art,
    ArtAnime,
    ArtDoujinshi,
    ArtGames,
    ArtManga,
    ArtPictures,
    RealLife,
    RealLifePhotobooks,
    RealLifeVideos,
}

impl SukebeiCategory {
    /// The group and the subcategory of the category.
    pub open spec fn group_sub(self) -> (nat, nat) {
        match self {
            SukebeiCategory::All => (0, 0),
            SukebeiCategory::Art => (1, 0),
            SukebeiCategory::ArtAnime => (1, 1),
            SukebeiCategory::ArtDoujinshi => (1, 2),
            SukebeiCategory::ArtGames => (1, 3),
            SukebeiCategory::ArtManga => (1, 4),
            SukebeiCategory::ArtPictures => (1, 5),
            SukebeiCategory::RealLife => (2, 0),
            SukebeiCategory::RealLifePhotobooks => (2, 1),
            SukebeiCategory::RealLifeVideos => (2, 2),
        }
    }

    /// The category of a group and a subcategory, if there is one.
    pub open spec fn of_group_sub(g: nat, s: nat) -> Option<SukebeiCategory> {
        if g == 0 && s == 0 {
            Some(SukebeiCategory::All)
        } else if g == 1 && s == 0 {
            Some(SukebeiCategory::Art)
        } else if g == 1 && s == 1 {
            Some(SukebeiCategory::ArtAnime)
        } else if g == 1 && s == 2 {
            Some(SukebeiCategory::ArtDoujinshi)
        } else if g == 1 && s == 3 {
            Some(SukebeiCategory::ArtGames)
        } else if g == 1 && s == 4 {
            Some(SukebeiCategory::ArtManga)
        } else if g == 1 && s == 5 {
            Some(SukebeiCategory::ArtPictures)
        } else if g == 2 && s == 0 {
            Some(SukebeiCategory::RealLife)
        } else if g == 2 && s == 1 {
            Some(SukebeiCategory::RealLifePhotobooks)
        } else if g == 2 && s == 2 {
            Some(SukebeiCategory::RealLifeVideos)
        } else {
            None
        }
    }

    pub fn group_sub_exec(&self) -> (r: (u8, u8))
        ensures
            r.0 as nat == self.group_sub().0,
            r.1 as nat == self.group_sub().1,
    {
        match self {
            SukebeiCategory::All => (0, 0),
            SukebeiCategory::Art => (1, 0),
            SukebeiCategory::ArtAnime => (1, 1),
            SukebeiCategory::ArtDoujinshi => (1, 2),
            SukebeiCategory::ArtGames => (1, 3),
            SukebeiCategory::ArtManga => (1, 4),
            SukebeiCategory::ArtPictures => (1, 5),
            SukebeiCategory::RealLife => (2, 0),
            SukebeiCategory::RealLifePhotobooks => (2, 1),
            SukebeiCategory::RealLifeVideos => (2, 2),
        }
    }
}

impl Category for SukebeiCategory {
    open spec fn code(&self) -> Seq<char> {
        code_of(self.group_sub().0, self.group_sub().1)
    }

    open spec fn spec_default() -> SukebeiCategory {
        SukebeiCategory::All
    }

    fn to_code(&self) -> (r: String) {
        let (g, s) = self.group_sub_exec();
        code_string(g, s)
    }

    fn default_value() -> (r: SukebeiCategory) {
        SukebeiCategory::All
    }
}

impl Default for SukebeiCategory {
    fn default() -> (r: SukebeiCategory)
        ensures
            r == SukebeiCategory::All,
    {
        SukebeiCategory::All
    }
}

/// The default category is "All", whose code is "0_0"; and no two
/// categories share a code.
pub proof fn lemma_sukebei_codes(a: SukebeiCategory, b: SukebeiCategory)
    ensures
        SukebeiCategory::spec_default().code() == seq!['0', '_', '0'],
        a.code() == b.code() ==> a == b,
{
    assert(SukebeiCategory::of_group_sub(a.group_sub().0, a.group_sub().1) == Some(a));
    assert(SukebeiCategory::of_group_sub(b.group_sub().0, b.group_sub().1) == Some(b));
    if a.code() == b.code() {
        lemma_code_of_injective(a.group_sub().0, a.group_sub().1, b.group_sub().0, b.group_sub().1);
    }
}

/// A query of this site.
pub type SukebeiQuery = Query<SukebeiCategory>;

} // verus!
