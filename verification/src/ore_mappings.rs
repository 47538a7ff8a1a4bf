//! Ore-to-material mapping: which refined moon materials each scanned ore
//! yields, and the normalisation of scanned ore names.
//!
//! Scanned ore names carry a quality prefix; stripping it
//! gives the base ore that the mapping tables are keyed by. Of each ore's
//! yield, only refined moon materials take part in reactions;
//! plain minerals are filtered out when the mapping is built.

use vstd::prelude::*;
use vstd::string::StrSliceExecFns;

use crate::reactions::name_in;
use crate::reactions::contains_name;
use crate::strutil::has_prefix;
use crate::strutil::is_prefix;
use crate::strutil::str_eq;
use crate::strutil::suffix_from;

verus! {

/// A scanned ore name with its quality prefix removed; a name with no
/// known prefix is already a base ore name.
pub open spec fn base_ore_name_spec(s: Seq<char>) -> Seq<char> {
    if is_prefix("Bountiful "@, s) {
        s.skip("Bountiful "@.len() as int)
    } else if is_prefix("Copious "@, s) {
        s.skip("Copious "@.len() as int)
    } else if is_prefix("Dazzling "@, s) {
        s.skip("Dazzling "@.len() as int)
    } else if is_prefix("Flawless "@, s) {
        s.skip("Flawless "@.len() as int)
    } else if is_prefix("Gilded "@, s) {
        s.skip("Gilded "@.len() as int)
    } else if is_prefix("Glossy "@, s) {
        s.skip("Glossy "@.len() as int)
    } else if is_prefix("Immaculate "@, s) {
        s.skip("Immaculate "@.len() as int)
    } else if is_prefix("Lavish "@, s) {
        s.skip("Lavish "@.len() as int)
    } else if is_prefix("Lustrous "@, s) {
        s.skip("Lustrous "@.len() as int)
    } else if is_prefix("Opulent "@, s) {
        s.skip("Opulent "@.len() as int)
    } else if is_prefix("Pellucid "@, s) {
        s.skip("Pellucid "@.len() as int)
    } else if is_prefix("Platelet "@, s) {
        s.skip("Platelet "@.len() as int)
    } else if is_prefix("Plentiful "@, s) {
        s.skip("Plentiful "@.len() as int)
    } else if is_prefix("Prismatic "@, s) {
        s.skip("Prismatic "@.len() as int)
    } else if is_prefix("Radiant "@, s) {
        s.skip("Radiant "@.len() as int)
    } else if is_prefix("Replete "@, s) {
        s.skip("Replete "@.len() as int)
    } else if is_prefix("Resplendent "@, s) {
        s.skip("Resplendent "@.len() as int)
    } else if is_prefix("Shimmering "@, s) {
        s.skip("Shimmering "@.len() as int)
    } else if is_prefix("Sparkling "@, s) {
        s.skip("Sparkling "@.len() as int)
    } else if is_prefix("Stable "@, s) {
        s.skip("Stable "@.len() as int)
    } else if is_prefix("Twinkling "@, s) {
        s.skip("Twinkling "@.len() as int)
    } else if is_prefix("Brilliant "@, s) {
        s.skip("Brilliant "@.len() as int)
    } else {
        s
    }
}

/// Whether a material name is a refined moon material, the kind reactions
/// consume, as opposed to a plain mineral.
pub open spec fn is_goo_name(s: Seq<char>) -> bool {
    ||| s == "Hydrocarbons"@
        ||| s == "Silicates"@
        ||| s == "Evaporite Deposits"@
        ||| s == "Atmospheric Gases"@
        ||| s == "Cobalt"@
        ||| s == "Scandium"@
        ||| s == "Tungsten"@
        ||| s == "Titanium"@
        ||| s == "Chromium"@
        ||| s == "Cadmium"@
        ||| s == "Platinum"@
        ||| s == "Vanadium"@
        ||| s == "Technetium"@
        ||| s == "Mercury"@
        ||| s == "Caesium"@
        ||| s == "Hafnium"@
        ||| s == "Promethium"@
        ||| s == "Neodymium"@
        ||| s == "Dysprosium"@
        ||| s == "Thulium"@
}

/// Decides `is_goo_name` on a material name.
pub fn is_moon_goo(name: &str) -> (r: bool)
    ensures
        r == is_goo_name(name@),
{
    str_eq(name, "Hydrocarbons")
        || str_eq(name, "Silicates")
        || str_eq(name, "Evaporite Deposits")
        || str_eq(name, "Atmospheric Gases")
        || str_eq(name, "Cobalt")
        || str_eq(name, "Scandium")
        || str_eq(name, "Tungsten")
        || str_eq(name, "Titanium")
        || str_eq(name, "Chromium")
        || str_eq(name, "Cadmium")
        || str_eq(name, "Platinum")
        || str_eq(name, "Vanadium")
        || str_eq(name, "Technetium")
        || str_eq(name, "Mercury")
        || str_eq(name, "Caesium")
        || str_eq(name, "Hafnium")
        || str_eq(name, "Promethium")
        || str_eq(name, "Neodymium")
        || str_eq(name, "Dysprosium")
        || str_eq(name, "Thulium")
}

/// Only the refined moon materials of a yield list, in order.
pub open spec fn goo_filter(ms: Seq<String>) -> Seq<String>
    decreases ms.len(),
{
    if ms.len() == 0 {
        Seq::empty()
    } else {
        let rest = goo_filter(ms.drop_first());
        if is_goo_name(ms[0]@) {
            seq![ms[0]] + rest
        } else {
            rest
        }
    }
}

/// The stored yield list for a base ore: the first matching entry.
pub open spec fn goo_of(
    entries: Seq<(String, Vec<String>)>,
    ore: Seq<char>,
) -> Option<Vec<String>>
    decreases entries.len(),
{
    if entries.len() == 0 {
        None
    } else if entries[0].0@ == ore {
        Some(entries[0].1)
    } else {
        goo_of(entries.drop_first(), ore)
    }
}

/// A material `m` is what owning `ore` brings: the mapping knows the ore's
/// base name and lists `m` among its refined materials.
pub open spec fn goo_target(
    entries: Seq<(String, Vec<String>)>,
    ore: Seq<char>,
    m: Seq<char>,
) -> bool {
    match goo_of(entries, base_ore_name_spec(ore)) {
        Some(ms) => name_in(ms@, m),
        None => false,
    }
}

/// The ore-to-material mapping: for each base ore, the refined moon
/// materials it yields. Built once from decoded data and then only read.
pub struct OreMappings {
    ore_to_goo: Vec<(String, Vec<String>)>,
}

/// Unrolls one step of `goo_of` over a suffix of the mapping.
proof fn lemma_goo_of_skip_step(entries: Seq<(String, Vec<String>)>, ore: Seq<char>, i: int)
    requires
        0 <= i < entries.len(),
    ensures
        entries[i].0@ == ore ==> goo_of(entries.skip(i), ore) == Some(entries[i].1),
        entries[i].0@ != ore ==> goo_of(entries.skip(i), ore) == goo_of(entries.skip(i + 1), ore),
{
    assert(entries.skip(i)[0] == entries[i]);
    assert(entries.skip(i).drop_first() =~= entries.skip(i + 1));
}

impl OreMappings {
    /// The mapping as stored.
    pub closed spec fn view(&self) -> Seq<(String, Vec<String>)> {
        self.ore_to_goo@
    }

    /// Builds the mapping from already-decoded `(ore, yields)` pairs,
    /// keeping only the refined moon materials of each yield list.
    pub fn new(raw: Vec<(String, Vec<String>)>) -> (r: OreMappings)
        ensures
            r@.len() == raw@.len(),
            forall|i: int|
                0 <= i < raw@.len() ==> (#[trigger] r@[i]).0 == raw@[i].0 && r@[i].1@
                    == goo_filter(raw@[i].1@),
    {
        let mut entries: Vec<(String, Vec<String>)> = Vec::new();
        let n = raw.len();
        for i in 0..n
            invariant
                n == raw@.len(),
                entries@.len() == i,
                forall|k: int|
                    0 <= k < i ==> (#[trigger] entries@[k]).0 == raw@[k].0 && entries@[k].1@
                        == goo_filter(raw@[k].1@),
        {
            let pair = &raw[i];
            let mut kept: Vec<String> = Vec::new();
            let m = pair.1.len();
            proof {
                assert(pair.1@.skip(0) =~= pair.1@);
            }
            for j in 0..m
                invariant
                    m == pair.1@.len(),
                    pair.1@ == raw@[i as int].1@,
                    goo_filter(pair.1@) == kept@ + goo_filter(pair.1@.skip(j as int)),
            {
                proof {
                    assert(pair.1@.skip(j as int)[0] == pair.1@[j as int]);
                    assert(pair.1@.skip(j as int).drop_first() =~= pair.1@.skip(j as int + 1));
                }
                let ghost pre = kept@;
                if is_moon_goo(pair.1[j].as_str()) {
                    kept.push(pair.1[j].clone());
                    proof {
                        assert(kept@ =~= pre + seq![pair.1@[j as int]]);
                        assert(pre + seq![pair.1@[j as int]] + goo_filter(
                            pair.1@.skip(j as int + 1),
                        ) =~= pre + (seq![pair.1@[j as int]] + goo_filter(
                            pair.1@.skip(j as int + 1),
                        )));
                    }
                }
            }
            proof {
                assert(pair.1@.skip(m as int) =~= Seq::<String>::empty());
                assert(kept@ + Seq::<String>::empty() =~= kept@);
            }
            entries.push((pair.0.clone(), kept));
        }
        OreMappings { ore_to_goo: entries }
    }

    /// Strips the quality prefix from a scanned ore name, giving the base
    /// ore the mapping is keyed by.
    pub fn get_base_ore_name(ore_name: &str) -> (r: String)
        ensures
            r@ == base_ore_name_spec(ore_name@),
    {
        if has_prefix(ore_name, "Bountiful ") {
            return suffix_from(ore_name, "Bountiful ".unicode_len());
        }
        if has_prefix(ore_name, "Copious ") {
            return suffix_from(ore_name, "Copious ".unicode_len());
        }
        if has_prefix(ore_name, "Dazzling ") {
            return suffix_from(ore_name, "Dazzling ".unicode_len());
        }
        if has_prefix(ore_name, "Flawless ") {
            return suffix_from(ore_name, "Flawless ".unicode_len());
        }
        if has_prefix(ore_name, "Gilded ") {
            return suffix_from(ore_name, "Gilded ".unicode_len());
        }
        if has_prefix(ore_name, "Glossy ") {
            return suffix_from(ore_name, "Glossy ".unicode_len());
        }
        if has_prefix(ore_name, "Immaculate ") {
            return suffix_from(ore_name, "Immaculate ".unicode_len());
        }
        if has_prefix(ore_name, "Lavish ") {
            return suffix_from(ore_name, "Lavish ".unicode_len());
        }
        if has_prefix(ore_name, "Lustrous ") {
            return suffix_from(ore_name, "Lustrous ".unicode_len());
        }
        if has_prefix(ore_name, "Opulent ") {
            return suffix_from(ore_name, "Opulent ".unicode_len());
        }
        if has_prefix(ore_name, "Pellucid ") {
            return suffix_from(ore_name, "Pellucid ".unicode_len());
        }
        if has_prefix(ore_name, "Platelet ") {
            return suffix_from(ore_name, "Platelet ".unicode_len());
        }
        if has_prefix(ore_name, "Plentiful ") {
            return suffix_from(ore_name, "Plentiful ".unicode_len());
        }
        if has_prefix(ore_name, "Prismatic ") {
            return suffix_from(ore_name, "Prismatic ".unicode_len());
        }
        if has_prefix(ore_name, "Radiant ") {
            return suffix_from(ore_name, "Radiant ".unicode_len());
        }
        if has_prefix(ore_name, "Replete ") {
            return suffix_from(ore_name, "Replete ".unicode_len());
        }
        if has_prefix(ore_name, "Resplendent ") {
            return suffix_from(ore_name, "Resplendent ".unicode_len());
        }
        if has_prefix(ore_name, "Shimmering ") {
            return suffix_from(ore_name, "Shimmering ".unicode_len());
        }
        if has_prefix(ore_name, "Sparkling ") {
            return suffix_from(ore_name, "Sparkling ".unicode_len());
        }
        if has_prefix(ore_name, "Stable ") {
            return suffix_from(ore_name, "Stable ".unicode_len());
        }
        if has_prefix(ore_name, "Twinkling ") {
            return suffix_from(ore_name, "Twinkling ".unicode_len());
        }
        if has_prefix(ore_name, "Brilliant ") {
            return suffix_from(ore_name, "Brilliant ".unicode_len());
        }
        ore_name.to_owned()
    }

    /// The stored yield list for a base ore name.
    fn get_goo<'a>(&'a self, base: &str) -> (r: Option<&'a Vec<String>>)
        ensures
            match r {
                Some(ms) => goo_of(self@, base@) == Some(*ms),
                None => goo_of(self@, base@) is None,
            },
    {
        let n = self.ore_to_goo.len();
        proof {
            assert(self.ore_to_goo@.skip(0) =~= self.ore_to_goo@);
        }
        for i in 0..n
            invariant
                n == self.ore_to_goo@.len(),
                goo_of(self.ore_to_goo@, base@) == goo_of(
                    self.ore_to_goo@.skip(i as int),
                    base@,
                ),
        {
            proof {
                lemma_goo_of_skip_step(self.ore_to_goo@, base@, i as int);
            }
            if str_eq(self.ore_to_goo[i].0.as_str(), base) {
                return Some(&self.ore_to_goo[i].1);
            }
        }
        None
    }

    /// The distinct refined moon materials that a list of scanned ore
    /// names yields: what the user's moons actually feed into reactions.
    pub fn ores_to_moon_goo(&self, ore_names: &Vec<String>) -> (r: Vec<String>)
        ensures
            forall|a: int, b: int| 0 <= a < b < r@.len() ==> r@[a]@ != r@[b]@,
            forall|m: Seq<char>|
                name_in(r@, m) <==> exists|k: int|
                    0 <= k < ore_names@.len() && goo_target(self@, #[trigger] ore_names@[k]@, m),
    {
        let mut out: Vec<String> = Vec::new();
        let n = ore_names.len();
        for k in 0..n
            invariant
                n == ore_names@.len(),
                forall|a: int, b: int| 0 <= a < b < out@.len() ==> out@[a]@ != out@[b]@,
                forall|m: Seq<char>|
                    name_in(out@, m) <==> exists|p: int|
                        0 <= p < k && goo_target(self@, #[trigger] ore_names@[p]@, m),
        {
            let base = Self::get_base_ore_name(ore_names[k].as_str());
            if let Some(ms) = self.get_goo(base.as_str()) {
                let mlen = ms.len();
                for j in 0..mlen
                    invariant
                        mlen == ms@.len(),
                        goo_of(self@, base_ore_name_spec(ore_names@[k as int]@)) == Some(*ms),
                        0 <= k < ore_names@.len(),
                        forall|a: int, b: int|
                            0 <= a < b < out@.len() ==> out@[a]@ != out@[b]@,
                        forall|m: Seq<char>|
                            name_in(out@, m) <==> (exists|p: int|
                                0 <= p < k && goo_target(
                                    self@,
                                    #[trigger] ore_names@[p]@,
                                    m,
                                )) || (exists|q: int| 0 <= q < j && ms@[q]@ == m),
                {
                    let ghost pre = out@;
                    if !contains_name(&out, ms[j].as_str()) {
                        out.push(ms[j].clone());
                        proof {
                            crate::reactions::lemma_name_in_push(pre, ms@[j as int]);
                            assert(out@ == pre.push(ms@[j as int]));
                            assert forall|m: Seq<char>| name_in(out@, m) implies (exists|p: int|
                                0 <= p < k && goo_target(
                                    self@,
                                    #[trigger] ore_names@[p]@,
                                    m,
                                )) || (exists|q: int| 0 <= q < j + 1 && ms@[q]@ == m) by {
                                if m != ms@[j as int]@ {
                                    assert(name_in(pre, m));
                                } else {
                                    assert(ms@[j as int]@ == m);
                                }
                            }
                            assert forall|m: Seq<char>|
                                (exists|p: int|
                                    0 <= p < k && goo_target(
                                        self@,
                                        #[trigger] ore_names@[p]@,
                                        m,
                                    )) || (exists|q: int| 0 <= q < j + 1 && ms@[q]@ == m) implies
                                name_in(out@, m) by {
                                if exists|q: int| 0 <= q < j + 1 && ms@[q]@ == m {
                                    let q = choose|q: int| 0 <= q < j + 1 && ms@[q]@ == m;
                                    if q < j {
                                        assert(name_in(pre, m));
                                    }
                                } else {
                                    assert(name_in(pre, m));
                                }
                            }
                        }
                    } else {
                        proof {
                            assert forall|m: Seq<char>|
                                (exists|p: int|
                                    0 <= p < k && goo_target(
                                        self@,
                                        #[trigger] ore_names@[p]@,
                                        m,
                                    )) || (exists|q: int| 0 <= q < j + 1 && ms@[q]@ == m) implies
                                name_in(out@, m) by {
                                if exists|q: int| 0 <= q < j + 1 && ms@[q]@ == m {
                                    let q = choose|q: int| 0 <= q < j + 1 && ms@[q]@ == m;
                                    if q == j {
                                        assert(name_in(out@, ms@[j as int]@));
                                    }
                                }
                            }
                        }
                    }
                }
                proof {
                    assert forall|m: Seq<char>| name_in(out@, m) implies (exists|p: int|
                        0 <= p < k + 1 && goo_target(self@, #[trigger] ore_names@[p]@, m)) by {
                        if !(exists|p: int|
                            0 <= p < k && goo_target(self@, ore_names@[p]@, m)) {
                            assert(goo_target(self@, ore_names@[k as int]@, m)) by {
                                let q = choose|q: int| 0 <= q < ms@.len() && ms@[q]@ == m;
                                assert(name_in(ms@, m));
                            }
                        }
                    }
                    assert forall|m: Seq<char>|
                        (exists|p: int|
                            0 <= p < k + 1 && goo_target(
                                self@,
                                #[trigger] ore_names@[p]@,
                                m,
                            )) implies name_in(out@, m) by {
                        let p = choose|p: int|
                            0 <= p < k + 1 && goo_target(self@, ore_names@[p]@, m);
                        if p == k {
                            let q = choose|q: int| 0 <= q < ms@.len() && ms@[q]@ == m;
                            assert(ms@[q]@ == m);
                        }
                    }
                }
            } else {
                proof {
                    assert forall|m: Seq<char>| name_in(out@, m) implies (exists|p: int|
                        0 <= p < k + 1 && goo_target(self@, #[trigger] ore_names@[p]@, m)) by {
                    }
                    assert forall|m: Seq<char>|
                        (exists|p: int|
                            0 <= p < k + 1 && goo_target(
                                self@,
                                #[trigger] ore_names@[p]@,
                                m,
                            )) implies name_in(out@, m) by {
                        let p = choose|p: int|
                            0 <= p < k + 1 && goo_target(self@, ore_names@[p]@, m);
                        assert(p < k);
                    }
                }
            }
        }
        out
    }
}

} // verus!
