//! Creature keywords stored as a 16-bit mask.

use vstd::prelude::*;
use crate::gamecore::text::{ascii_lower, eq_ignore_ascii_case};

verus! {

/// A set of keywords, one bit per keyword.
#[derive(Clone, Copy, Debug, PartialEq, Eq, Hash, Default, Structural)]
pub struct Keywords(pub u16);

/// Bit of the keyword with the given position (0..16).
pub open spec fn kw_bit(i: nat) -> u16 {
    if i < 16 { (1u16 << (i as u16)) as u16 } else { 0 }
}

/// Capitalised name of the keyword at bit position `i`.
pub open spec fn kw_name(i: nat) -> Seq<char> {
    if i == 0 { "Rush"@ }
    else if i == 1 { "Ranged"@ }
    else if i == 2 { "Piercing"@ }
    else if i == 3 { "Guard"@ }
    else if i == 4 { "Lifesteal"@ }
    else if i == 5 { "Lethal"@ }
    else if i == 6 { "Shield"@ }
    else if i == 7 { "Quick"@ }
    else if i == 8 { "Ephemeral"@ }
    else if i == 9 { "Regenerate"@ }
    else if i == 10 { "Stealth"@ }
    else if i == 11 { "Charge"@ }
    else if i == 12 { "Frenzy"@ }
    else if i == 13 { "Volatile"@ }
    else if i == 14 { "Fortify"@ }
    else { "Ward"@ }
}

/// The bit of the keyword named `name` (compared without regard to ASCII
/// case), or 0 when no keyword has that name.
pub open spec fn keyword_bits_of_name(name: Seq<char>) -> u16 {
    keyword_bits_from(name, 0)
}

/// Search for `name` among keyword positions `i..16`.
pub open spec fn keyword_bits_from(name: Seq<char>, i: nat) -> u16
    decreases 16 - i,
{
    if i >= 16 {
        0
    } else if ascii_lower(name) == ascii_lower(kw_name(i)) {
        kw_bit(i)
    } else {
        keyword_bits_from(name, i + 1)
    }
}

/// Names of the keywords present in `bits` among positions `i..16`, in bit order.
pub open spec fn keyword_names_from(bits: u16, i: nat) -> Seq<Seq<char>>
    decreases 16 - i,
{
    if i >= 16 {
        Seq::empty()
    } else if bits & kw_bit(i) != 0 {
        seq![kw_name(i)] + keyword_names_from(bits, i + 1)
    } else {
        keyword_names_from(bits, i + 1)
    }
}

/// Union of the keyword bits of a list of names.
pub open spec fn keyword_bits_of_names(names: Seq<Seq<char>>) -> u16
    decreases names.len(),
{
    if names.len() == 0 {
        0
    } else {
        keyword_bits_of_names(names.drop_last()) | keyword_bits_of_name(names.last())
    }
}

/// Name of the keyword at bit position `i`.
fn keyword_name_at(i: u16) -> (r: &'static str)
    requires
        i < 16,
    ensures
        r@ == kw_name(i as nat),
{
    if i == 0 { "Rush" }
    else if i == 1 { "Ranged" }
    else if i == 2 { "Piercing" }
    else if i == 3 { "Guard" }
    else if i == 4 { "Lifesteal" }
    else if i == 5 { "Lethal" }
    else if i == 6 { "Shield" }
    else if i == 7 { "Quick" }
    else if i == 8 { "Ephemeral" }
    else if i == 9 { "Regenerate" }
    else if i == 10 { "Stealth" }
    else if i == 11 { "Charge" }
    else if i == 12 { "Frenzy" }
    else if i == 13 { "Volatile" }
    else if i == 14 { "Fortify" }
    else { "Ward" }
}

impl Keywords {
    pub const RUSH: u16 = 1;
    pub const RANGED: u16 = 2;
    pub const PIERCING: u16 = 4;
    pub const GUARD: u16 = 8;
    pub const LIFESTEAL: u16 = 16;
    pub const LETHAL: u16 = 32;
    pub const SHIELD: u16 = 64;
    pub const QUICK: u16 = 128;
    pub const EPHEMERAL: u16 = 256;
    pub const REGENERATE: u16 = 512;
    pub const STEALTH: u16 = 1024;
    pub const CHARGE: u16 = 2048;
    pub const FRENZY: u16 = 4096;
    pub const VOLATILE: u16 = 8192;
    pub const FORTIFY: u16 = 16384;
    pub const WARD: u16 = 32768;

    /// Whether every bit of `k` is set.
    pub open spec fn spec_has(&self, k: u16) -> bool {
        self.0 & k == k
    }

    /// The empty keyword set.
    pub fn none() -> (r: Keywords)
        ensures
            r.0 == 0,
    {
        Keywords(0)
    }

    /// Whether all of the keyword bits in `k` are present.
    #[verifier::when_used_as_spec(spec_has)]
    pub fn has(&self, k: u16) -> (r: bool)
        ensures
            r == self.spec_has(k),
    {
        self.0 & k == k
    }

    /// Add the keyword bits in `k`.
    pub fn add(&mut self, k: u16)
        ensures
            final(self).0 == old(self).0 | k,
    {
        self.0 = self.0 | k;
    }

    /// Remove the keyword bits in `k`.
    pub fn remove(&mut self, k: u16)
        ensures
            final(self).0 == old(self).0 & !k,
    {
        self.0 = self.0 & !k;
    }

    /// Remove every keyword.
    pub fn clear(&mut self)
        ensures
            final(self).0 == 0,
    {
        self.0 = 0;
    }

    pub fn has_rush(&self) -> (r: bool) ensures r == self.spec_has(Keywords::RUSH) { self.has(Keywords::RUSH) }
    pub fn has_ranged(&self) -> (r: bool) ensures r == self.spec_has(Keywords::RANGED) { self.has(Keywords::RANGED) }
    pub fn has_piercing(&self) -> (r: bool) ensures r == self.spec_has(Keywords::PIERCING) { self.has(Keywords::PIERCING) }
    pub fn has_guard(&self) -> (r: bool) ensures r == self.spec_has(Keywords::GUARD) { self.has(Keywords::GUARD) }
    pub fn has_lifesteal(&self) -> (r: bool) ensures r == self.spec_has(Keywords::LIFESTEAL) { self.has(Keywords::LIFESTEAL) }
    pub fn has_lethal(&self) -> (r: bool) ensures r == self.spec_has(Keywords::LETHAL) { self.has(Keywords::LETHAL) }
    pub fn has_shield(&self) -> (r: bool) ensures r == self.spec_has(Keywords::SHIELD) { self.has(Keywords::SHIELD) }
    pub fn has_quick(&self) -> (r: bool) ensures r == self.spec_has(Keywords::QUICK) { self.has(Keywords::QUICK) }
    pub fn has_ephemeral(&self) -> (r: bool) ensures r == self.spec_has(Keywords::EPHEMERAL) { self.has(Keywords::EPHEMERAL) }
    pub fn has_regenerate(&self) -> (r: bool) ensures r == self.spec_has(Keywords::REGENERATE) { self.has(Keywords::REGENERATE) }
    pub fn has_stealth(&self) -> (r: bool) ensures r == self.spec_has(Keywords::STEALTH) { self.has(Keywords::STEALTH) }
    pub fn has_charge(&self) -> (r: bool) ensures r == self.spec_has(Keywords::CHARGE) { self.has(Keywords::CHARGE) }
    pub fn has_frenzy(&self) -> (r: bool) ensures r == self.spec_has(Keywords::FRENZY) { self.has(Keywords::FRENZY) }
    pub fn has_volatile(&self) -> (r: bool) ensures r == self.spec_has(Keywords::VOLATILE) { self.has(Keywords::VOLATILE) }
    pub fn has_fortify(&self) -> (r: bool) ensures r == self.spec_has(Keywords::FORTIFY) { self.has(Keywords::FORTIFY) }
    pub fn has_ward(&self) -> (r: bool) ensures r == self.spec_has(Keywords::WARD) { self.has(Keywords::WARD) }

    /// Bit of a keyword given by name (ASCII case ignored); 0 for an unknown name.
    pub fn parse_keyword_name(name: &str) -> (r: u16)
        ensures
            r == keyword_bits_of_name(name@),
    {
        let mut i: u16 = 0;
        while i < 16
            invariant
                i <= 16,
                keyword_bits_from(name@, 0) == keyword_bits_from(name@, i as nat),
            decreases 16 - i,
        {
            let candidate = keyword_name_at(i);
            if eq_ignore_ascii_case(name, candidate) {
                let bit: u16 = 1u16 << i;
                assert(bit == kw_bit(i as nat));
                return bit;
            }
            i = i + 1;
        }
        0
    }

    /// Keyword set from a list of keyword names; unknown names are ignored.
    pub fn from_names(names: &[&str]) -> (r: Keywords)
        ensures
            r.0 == keyword_bits_of_names(names@.map_values(|s: &str| s@)),
    {
        let mut bits: u16 = 0;
        let mut i: usize = 0;
        while i < names.len()
            invariant
                i <= names@.len(),
                bits == keyword_bits_of_names(names@.subrange(0, i as int).map_values(|s: &str| s@)),
            decreases names@.len() - i,
        {
            let b = Self::parse_keyword_name(names[i]);
            proof {
                let prev = names@.subrange(0, i as int).map_values(|s: &str| s@);
                let next = names@.subrange(0, i + 1).map_values(|s: &str| s@);
                assert(next.drop_last() =~= prev);
                assert(next.last() == names@[i as int]@);
            }
            bits = bits | b;
            i = i + 1;
        }
        proof {
            assert(names@.subrange(0, names@.len() as int) =~= names@);
        }
        Keywords(bits)
    }

    /// Names of the present keywords, in bit order.
    pub fn to_names(&self) -> (r: Vec<&'static str>)
        ensures
            r@.map_values(|s: &str| s@) == keyword_names_from(self.0, 0),
    {
        let mut out: Vec<&'static str> = Vec::new();
        let mut i: u16 = 0;
        while i < 16
            invariant
                i <= 16,
                out@.map_values(|s: &str| s@) + keyword_names_from(self.0, i as nat)
                    == keyword_names_from(self.0, 0),
            decreases 16 - i,
        {
            let bit: u16 = 1u16 << i;
            assert(bit == kw_bit(i as nat));
            if self.0 & bit != 0 {
                let name = keyword_name_at(i);
                let ghost before = out@.map_values(|s: &str| s@);
                out.push(name);
                proof {
                    assert(out@.map_values(|s: &str| s@) =~= before.push(name@));
                    assert(keyword_names_from(self.0, i as nat)
                        == seq![kw_name(i as nat)] + keyword_names_from(self.0, (i + 1) as nat));
                    assert(before.push(name@) + keyword_names_from(self.0, (i + 1) as nat)
                        =~= before + (seq![kw_name(i as nat)] + keyword_names_from(self.0, (i + 1) as nat)));
                }
            }
            i = i + 1;
        }
        proof {
            assert(keyword_names_from(self.0, 16) =~= Seq::<Seq<char>>::empty());
            assert(out@.map_values(|s: &str| s@) + Seq::<Seq<char>>::empty()
                =~= out@.map_values(|s: &str| s@));
        }
        out
    }
}

/// Adding keyword bits makes them present.
pub proof fn lemma_add_has(a: u16, k: u16)
    ensures
        (a | k) & k == k,
{
    assert((a | k) & k == k) by (bit_vector);
}

/// Adding bits keeps the bits that were already present.
pub proof fn lemma_add_keeps(a: u16, k: u16, j: u16)
    ensures
        a & j == j ==> (a | k) & j == j,
{
    assert(a & j == j ==> (a | k) & j == j) by (bit_vector);
}

/// Removing a non-empty set of bits makes it absent.
pub proof fn lemma_remove_absent(a: u16, k: u16)
    requires
        k != 0,
    ensures
        (a & !k) & k != k,
{
    assert(k != 0 ==> (a & !k) & k != k) by (bit_vector);
}

/// Removing bits leaves disjoint bits as they were.
pub proof fn lemma_remove_keeps(a: u16, k: u16, j: u16)
    requires
        j & k == 0,
    ensures
        ((a & !k) & j == j) == (a & j == j),
{
    assert(j & k == 0 ==> (((a & !k) & j == j) == (a & j == j))) by (bit_vector);
}

} // verus!
