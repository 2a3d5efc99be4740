use vstd::prelude::*;
use vstd::string::*;
use crate::digits::{decimal, digit_char, lemma_digit_char, push_decimal};

verus! {

/// The wire code "<group>_<sub>" of a category.
pub open spec fn code_of(group: nat, sub: nat) -> Seq<char> {
    seq![digit_char(group), '_', digit_char(sub)]
}

/// Codes of single-digit groups and subcategories tell them apart.
pub proof fn lemma_code_of_injective(g1: nat, s1: nat, g2: nat, s2: nat)
    requires
        g1 < 10,
        s1 < 10,
        g2 < 10,
        s2 < 10,
        code_of(g1, s1) == code_of(g2, s2),
    ensures
        g1 == g2,
        s1 == s2,
{
    lemma_digit_char(g1);
    lemma_digit_char(s1);
    lemma_digit_char(g2);
    lemma_digit_char(s2);
    assert(code_of(g1, s1)[0] == code_of(g2, s2)[0]);
    assert(code_of(g1, s1)[2] == code_of(g2, s2)[2]);
}

/// Writes the wire code of a group and a subcategory.
pub fn code_string(group: u8, sub: u8) -> (r: String)
    requires
        group < 10,
        sub < 10,
    ensures
        r@ == code_of(group as nat, sub as nat),
{
    let mut out = String::new();
    push_decimal(&mut out, group as u64);
    proof {
        reveal_strlit("_");
    }
    out.append("_");
    push_decimal(&mut out, sub as u64);
    assert(decimal(group as nat) == seq![digit_char(group as nat)]);
    assert(decimal(sub as nat) == seq![digit_char(sub as nat)]);
    assert(out@ =~= code_of(group as nat, sub as nat));
    out
}

/// A closed set of categories of one site: each has a wire code, and one of
/// them, "All", is the default.
pub trait Category: Sized + Copy + PartialEq + Eq + std::hash::Hash + Default + std::fmt::Debug {
    /// The wire code of the category, "<group>_<sub>".
    spec fn code(&self) -> Seq<char>;

    /// The "All" category.
    spec fn spec_default() -> Self;

    fn to_code(&self) -> (r: String)
        ensures
            r@ == self.code(),
    ;

    fn default_value() -> (r: Self)
        ensures
            r == Self::spec_default(),
    ;
}

} // verus!
