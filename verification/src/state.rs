//! The application's mutable state: the scanned moons, next to the two
//! load-once datasets. Callers that share a state across threads wrap it in
//! a lock; every operation here is a plain, verified state transition.

use vstd::prelude::*;

use crate::ore_mappings::OreMappings;
use crate::reactions::ReactionDatabase;
use crate::reactions::contains_name;
use crate::reactions::name_in;
use crate::strutil::lex_le;
use crate::strutil::lemma_lex_total;
use crate::strutil::str_eq;
use crate::strutil::str_le;

verus! {

/// One scanned material of a moon: its name and the identifiers the scan
/// line carries.
#[derive(Clone, Debug)]
pub struct MaterialEntry {
    pub name: String,
    pub item_id: u32,
    pub system_id: u32,
    pub region_id: u32,
    pub additional_id: u32,
}

/// One scanned moon: its name and its material composition.
#[derive(Clone, Debug)]
pub struct MoonComposition {
    pub name: String,
    pub materials: Vec<MaterialEntry>,
}

/// Why a state operation is refused.
#[derive(Debug)]
pub enum StateError {
    /// A moon of this name is already stored.
    DuplicateMoon(String),
    /// The index names no stored moon.
    InvalidIndex,
}

/// The loaded moons and the two read-only datasets.
pub struct AppState {
    pub moons: Vec<MoonComposition>,
    pub reactions_db: ReactionDatabase,
    pub ore_mappings: OreMappings,
}

/// The stored list already holds a moon of this moon's name.
pub open spec fn name_collides(stored: Seq<MoonComposition>, m: MoonComposition) -> bool {
    exists|p: int| 0 <= p < stored.len() && (#[trigger] stored[p]).name@ == m.name@
}

/// Some material of the first `k` moons carries this name.
pub open spec fn moons_mention(moons: Seq<MoonComposition>, k: int, m: Seq<char>) -> bool {
    exists|p: int|
        0 <= p < k && p < moons.len() && exists|q: int|
            0 <= q < (#[trigger] moons[p]).materials@.len() && (
            #[trigger] moons[p].materials@[q]).name@ == m
}

/// The list stays distinct and sorted when a new name is put in at the
/// first position whose entry is not below-or-equal the newcomer, and
/// afterwards the names present are exactly the old ones plus the newcomer.
proof fn lemma_sorted_insert(s: Seq<String>, x: String, idx: int)
    requires
        0 <= idx <= s.len(),
        forall|a: int, b: int| 0 <= a < b < s.len() ==> lex_le(s[a]@, s[b]@),
        forall|a: int, b: int| 0 <= a < b < s.len() ==> s[a]@ != s[b]@,
        forall|a: int| 0 <= a < s.len() ==> s[a]@ != x@,
        forall|a: int| 0 <= a < idx ==> lex_le(s[a]@, x@),
        idx < s.len() ==> !lex_le(s[idx]@, x@),
    ensures
        ({
            let t = s.insert(idx, x);
            &&& forall|a: int, b: int| 0 <= a < b < t.len() ==> lex_le(t[a]@, t[b]@)
            &&& forall|a: int, b: int| 0 <= a < b < t.len() ==> t[a]@ != t[b]@
            &&& forall|m: Seq<char>| name_in(t, m) <==> name_in(s, m) || m == x@
        }),
{
    let t = s.insert(idx, x);
    if idx < s.len() {
        lemma_lex_total(s[idx]@, x@);
    }
    assert forall|a: int, b: int| 0 <= a < b < t.len() implies lex_le(t[a]@, t[b]@) by {
        if a < idx && b < idx {
            assert(t[a] == s[a] && t[b] == s[b]);
        } else if a < idx && b == idx {
            assert(t[a] == s[a]);
        } else if a < idx && b > idx {
            assert(t[a] == s[a] && t[b] == s[b - 1]);
            if b - 1 == a {
                assert(false);
            }
        } else if a == idx && b > idx {
            assert(t[b] == s[b - 1]);
            if b - 1 > idx {
                assert(lex_le(s[idx as int]@, s[b - 1]@));
                crate::strutil::lemma_lex_trans(x@, s[idx as int]@, s[b - 1]@);
            }
        } else {
            assert(t[a] == s[a - 1] && t[b] == s[b - 1]);
        }
    }
    assert forall|a: int, b: int| 0 <= a < b < t.len() implies t[a]@ != t[b]@ by {
        if a < idx && b < idx {
            assert(t[a] == s[a] && t[b] == s[b]);
        } else if a < idx && b == idx {
            assert(t[a] == s[a]);
        } else if a < idx && b > idx {
            assert(t[a] == s[a] && t[b] == s[b - 1]);
        } else if a == idx && b > idx {
            assert(t[b] == s[b - 1]);
        } else {
            assert(t[a] == s[a - 1] && t[b] == s[b - 1]);
        }
    }
    assert forall|m: Seq<char>| name_in(t, m) <==> name_in(s, m) || m == x@ by {
        if name_in(t, m) {
            let k = choose|k: int| 0 <= k < t.len() && t[k]@ == m;
            if k < idx {
                assert(s[k]@ == m);
            } else if k > idx {
                assert(s[k - 1]@ == m);
            }
        }
        if name_in(s, m) {
            let k = choose|k: int| 0 <= k < s.len() && s[k]@ == m;
            if k < idx {
                assert(t[k]@ == m);
            } else {
                assert(t[k + 1]@ == m);
            }
        }
        if m == x@ {
            assert(t[idx]@ == m);
        }
    }
}

impl AppState {
    /// A fresh state around the two datasets, with no moons loaded.
    pub fn new(reactions_db: ReactionDatabase, ore_mappings: OreMappings) -> (s: AppState)
        ensures
            s.moons@.len() == 0,
            s.reactions_db == reactions_db,
            s.ore_mappings == ore_mappings,
    {
        AppState { moons: Vec::new(), reactions_db, ore_mappings }
    }

    /// Stores the given moons, refusing the whole batch when any of them
    /// carries the name of an already-stored moon. On refusal the state is
    /// unchanged and the error names the first colliding moon.
    pub fn add_moons(&mut self, moons_to_add: Vec<MoonComposition>) -> (res: Result<
        (),
        StateError,
    >)
        ensures
            match res {
                Ok(()) => {
                    &&& forall|k: int, p: int|
                        0 <= k < moons_to_add@.len() && 0 <= p < old(self).moons@.len() ==> (
                        #[trigger] moons_to_add@[k]).name@ != (#[trigger] old(
                            self,
                        ).moons@[p]).name@
                    &&& final(self).moons@ == old(self).moons@ + moons_to_add@
                },
                Err(e) => {
                    &&& final(self).moons@ == old(self).moons@
                    &&& e matches StateError::DuplicateMoon(n) && exists|k: int|
                        {
                            &&& 0 <= k < moons_to_add@.len()
                            &&& name_collides(old(self).moons@, #[trigger] moons_to_add@[k])
                            &&& n == moons_to_add@[k].name
                            &&& forall|a: int|
                                0 <= a < k ==> !name_collides(
                                    old(self).moons@,
                                    #[trigger] moons_to_add@[a],
                                )
                        }
                },
            },
            final(self).reactions_db == old(self).reactions_db,
            final(self).ore_mappings == old(self).ore_mappings,
    {
        let n = moons_to_add.len();
        for k in 0..n
            invariant
                n == moons_to_add@.len(),
                self == old(self),
                forall|a: int, p: int|
                    0 <= a < k && 0 <= p < self.moons@.len() ==> (
                    #[trigger] moons_to_add@[a]).name@ != (#[trigger] self.moons@[p]).name@,
        {
            let m = self.moons.len();
            for p in 0..m
                invariant
                    m == self.moons@.len(),
                    n == moons_to_add@.len(),
                    0 <= k < n,
                    self == old(self),
                    forall|a: int, pp: int|
                        0 <= a < k && 0 <= pp < self.moons@.len() ==> (
                        #[trigger] moons_to_add@[a]).name@ != (#[trigger] self.moons@[pp]).name@,
                    forall|pp: int|
                        0 <= pp < p ==> moons_to_add@[k as int].name@ != (
                        #[trigger] self.moons@[pp]).name@,
            {
                if str_eq(self.moons[p].name.as_str(), moons_to_add[k].name.as_str()) {
                    proof {
                        assert(name_collides(self.moons@, moons_to_add@[k as int]));
                        assert forall|a: int| 0 <= a < k implies !name_collides(
                            self.moons@,
                            #[trigger] moons_to_add@[a],
                        ) by {
                            if name_collides(self.moons@, moons_to_add@[a]) {
                                let pp = choose|pp: int|
                                    0 <= pp < self.moons@.len() && (
                                    #[trigger] self.moons@[pp]).name@ == moons_to_add@[a].name@;
                                assert(moons_to_add@[a].name@ != self.moons@[pp].name@);
                            }
                        }
                    }
                    return Err(StateError::DuplicateMoon(moons_to_add[k].name.clone()));
                }
            }
        }
        let ghost pre = self.moons@;
        let mut to_add = moons_to_add;
        let ghost mut count: int = 0;
        proof {
            assert(pre + to_add@.take(0) =~= pre);
        }
        while to_add.len() > 0
            invariant
                self.moons@ == pre + moons_to_add@.take(count),
                to_add@ == moons_to_add@.skip(count),
                0 <= count <= moons_to_add@.len(),
                self.reactions_db == old(self).reactions_db,
                self.ore_mappings == old(self).ore_mappings,
            decreases to_add@.len(),
        {
            let moon = to_add.remove(0);
            self.moons.push(moon);
            proof {
                count = count + 1;
                assert(moons_to_add@.skip(count - 1).drop_first() =~= moons_to_add@.skip(count));
                assert((pre + moons_to_add@.take(count - 1)).push(
                    moons_to_add@.skip(count - 1)[0],
                ) =~= pre + moons_to_add@.take(count));
            }
        }
        proof {
            assert(moons_to_add@.take(moons_to_add@.len() as int) =~= moons_to_add@);
        }
        Ok(())
    }

    /// Removes the moon at the given position; an out-of-range index is
    /// reported, never clamped.
    pub fn delete_moon(&mut self, index: usize) -> (res: Result<(), StateError>)
        ensures
            match res {
                Ok(()) => {
                    &&& index < old(self).moons@.len()
                    &&& final(self).moons@ == old(self).moons@.remove(index as int)
                },
                Err(e) => {
                    &&& e is InvalidIndex
                    &&& index >= old(self).moons@.len()
                    &&& final(self).moons@ == old(self).moons@
                },
            },
            final(self).reactions_db == old(self).reactions_db,
            final(self).ore_mappings == old(self).ore_mappings,
    {
        if index >= self.moons.len() {
            return Err(StateError::InvalidIndex);
        }
        self.moons.remove(index);
        Ok(())
    }

    /// The stored moons, for display.
    pub fn get_moons(&self) -> (r: &Vec<MoonComposition>)
        ensures
            r@ == self.moons@,
    {
        &self.moons
    }

    /// The distinct material names over all stored moons, sorted.
    pub fn get_unique_materials(&self) -> (r: Vec<String>)
        ensures
            forall|a: int, b: int| 0 <= a < b < r@.len() ==> lex_le(r@[a]@, r@[b]@),
            forall|a: int, b: int| 0 <= a < b < r@.len() ==> r@[a]@ != r@[b]@,
            forall|m: Seq<char>|
                name_in(r@, m) <==> moons_mention(self.moons@, self.moons@.len() as int, m),
    {
        let ghost moons = self.moons@;
        let mut out: Vec<String> = Vec::new();
        let n = self.moons.len();
        for k in 0..n
            invariant
                n == moons.len(),
                moons == self.moons@,
                forall|a: int, b: int| 0 <= a < b < out@.len() ==> lex_le(out@[a]@, out@[b]@),
                forall|a: int, b: int| 0 <= a < b < out@.len() ==> out@[a]@ != out@[b]@,
                forall|m: Seq<char>| name_in(out@, m) <==> moons_mention(moons, k as int, m),
        {
            let moon = &self.moons[k];
            let mlen = moon.materials.len();
            for j in 0..mlen
                invariant
                    mlen == moon.materials@.len(),
                    moon.materials@ == moons[k as int].materials@,
                    0 <= k < moons.len(),
                    moons == self.moons@,
                    forall|a: int, b: int| 0 <= a < b < out@.len() ==> lex_le(out@[a]@, out@[b]@),
                    forall|a: int, b: int| 0 <= a < b < out@.len() ==> out@[a]@ != out@[b]@,
                    forall|m: Seq<char>|
                        name_in(out@, m) <==> moons_mention(moons, k as int, m) || (exists|q: int|
                            0 <= q < j && moons[k as int].materials@[q].name@ == m),
            {
                let material = &moon.materials[j];
                let ghost pre = out@;
                if !contains_name(&out, material.name.as_str()) {
                    let mut idx: usize = 0;
                    while idx < out.len() && str_le(out[idx].as_str(), material.name.as_str())
                        invariant
                            idx <= out@.len(),
                            out@ == pre,
                            forall|a: int| 0 <= a < idx ==> lex_le(out@[a]@, material.name@),
                        decreases out@.len() - idx,
                    {
                        idx = idx + 1;
                    }
                    out.insert(idx, material.name.clone());
                    proof {
                        lemma_sorted_insert(pre, material.name, idx as int);
                        assert(out@ == pre.insert(idx as int, material.name));
                        assert forall|m: Seq<char>| name_in(out@, m) implies moons_mention(
                            moons,
                            k as int,
                            m,
                        ) || (exists|q: int|
                            0 <= q < j + 1 && moons[k as int].materials@[q].name@ == m) by {
                            if m != material.name@ {
                                assert(name_in(pre, m));
                            } else {
                                assert(moons[k as int].materials@[j as int].name@ == m);
                            }
                        }
                        assert forall|m: Seq<char>|
                            moons_mention(moons, k as int, m) || (exists|q: int|
                                0 <= q < j + 1 && moons[k as int].materials@[q].name@
                                    == m) implies name_in(out@, m) by {
                            if exists|q: int|
                                0 <= q < j + 1 && moons[k as int].materials@[q].name@ == m {
                                let q = choose|q: int|
                                    0 <= q < j + 1 && moons[k as int].materials@[q].name@ == m;
                                if q < j {
                                    assert(name_in(pre, m));
                                }
                            } else {
                                assert(name_in(pre, m));
                            }
                        }
                    }
                } else {
                    proof {
                        assert forall|m: Seq<char>|
                            moons_mention(moons, k as int, m) || (exists|q: int|
                                0 <= q < j + 1 && moons[k as int].materials@[q].name@
                                    == m) implies name_in(out@, m) by {
                            if exists|q: int|
                                0 <= q < j + 1 && moons[k as int].materials@[q].name@ == m {
                                let q = choose|q: int|
                                    0 <= q < j + 1 && moons[k as int].materials@[q].name@ == m;
                                if q == j {
                                    assert(name_in(
                                        out@,
                                        moons[k as int].materials@[j as int].name@,
                                    ));
                                }
                            }
                        }
                    }
                }
            }
            proof {
                assert forall|m: Seq<char>| name_in(out@, m) implies moons_mention(
                    moons,
                    k as int + 1,
                    m,
                ) by {
                    if !moons_mention(moons, k as int, m) {
                        let q = choose|q: int|
                            0 <= q < moons[k as int].materials@.len()
                                && moons[k as int].materials@[q].name@ == m;
                        assert(0 <= k < k as int + 1 && (k as int) < moons.len() && exists|qq: int|
                            0 <= qq < moons[k as int].materials@.len()
                                && moons[k as int].materials@[qq].name@ == m);
                    }
                }
                assert forall|m: Seq<char>| moons_mention(moons, k as int + 1, m) implies name_in(
                    out@,
                    m,
                ) by {
                    let p = choose|p: int|
                        0 <= p < k as int + 1 && p < moons.len() && exists|q: int|
                            0 <= q < (#[trigger] moons[p]).materials@.len() && (
                            #[trigger] moons[p].materials@[q]).name@ == m;
                    if p == k as int {
                        let q = choose|q: int|
                            0 <= q < moons[p].materials@.len() && moons[p].materials@[q].name@
                                == m;
                        assert(exists|qq: int|
                            0 <= qq < moon.materials@.len() && moons[k as int].materials@[qq].name@
                                == m);
                    } else {
                        assert(moons_mention(moons, k as int, m));
                    }
                }
            }
        }
        out
    }
}

} // verus!
