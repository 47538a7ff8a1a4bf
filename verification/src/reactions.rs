//! The reaction catalog: every known reaction, with lookup by output item id.

use vstd::prelude::*;
use std::collections::HashSet;

use crate::strutil::str_eq;

verus! {

broadcast use vstd::std_specs::hash::group_hash_axioms;

/// One item slot of a reaction: the item's display name, its catalog id and
/// the quantity consumed or produced by a single run.
#[derive(Clone, Debug)]
pub struct ReactionItem {
    pub name: String,
    pub id: u32,
    pub quantity: u32,
}

/// A fixed recipe: exactly one output item plus the set of inputs consumed
/// per run.
#[derive(Clone, Debug)]
pub struct Reaction {
    pub formula_id: u32,
    pub formula_name: String,
    pub output: ReactionItem,
    pub inputs: Vec<ReactionItem>,
}

/// The loaded catalog of reactions. Built once from decoded data and then
/// only read.
pub struct ReactionDatabase {
    pub reactions: Vec<Reaction>,
}

/// A reaction the engine can do arithmetic on: each run yields at least one
/// unit of output (a recipe yielding nothing is malformed data), and the
/// input list is not absurdly long, so that summed costs stay within
/// machine bounds.
pub open spec fn reaction_wf(r: Reaction) -> bool {
    &&& r.output.quantity >= 1
    &&& r.inputs@.len() <= 0xFFFF_FFFF
}

/// Every reaction of the catalog is well-formed.
pub open spec fn catalog_wf(cat: Seq<Reaction>) -> bool {
    forall|i: int| 0 <= i < cat.len() ==> reaction_wf(#[trigger] cat[i])
}

/// The set of item ids that some reaction of the catalog produces.
pub open spec fn output_ids(cat: Seq<Reaction>) -> Set<u32> {
    cat.map_values(|r: Reaction| r.output.id).to_set()
}

/// The first reaction of the catalog whose output has the given id.
/// Well-formed catalogs have at most one producer per item, so the first
/// match is the only one.
pub open spec fn spec_lookup(cat: Seq<Reaction>, id: u32) -> Option<Reaction>
    decreases cat.len(),
{
    if cat.len() == 0 {
        None
    } else if cat[0].output.id == id {
        Some(cat[0])
    } else {
        spec_lookup(cat.drop_first(), id)
    }
}

/// A found reaction is one of the catalog's reactions, and lookup succeeds
/// exactly on the catalog's output ids.
pub proof fn lemma_lookup_properties(cat: Seq<Reaction>, id: u32)
    ensures
        spec_lookup(cat, id) matches Some(r) ==> cat.contains(r) && r.output.id == id,
        spec_lookup(cat, id) is Some <==> output_ids(cat).contains(id),
    decreases cat.len(),
{
    if cat.len() > 0 {
        lemma_lookup_properties(cat.drop_first(), id);
        if cat[0].output.id == id {
            assert(cat.map_values(|r: Reaction| r.output.id)[0] == id);
        } else {
            if let Some(r) = spec_lookup(cat.drop_first(), id) {
                assert(cat.drop_first().contains(r));
                let i = choose|i: int|
                    0 <= i < cat.drop_first().len() && cat.drop_first()[i] == r;
                assert(cat[i + 1] == r);
            }
            let m = cat.map_values(|r: Reaction| r.output.id);
            let m1 = cat.drop_first().map_values(|r: Reaction| r.output.id);
            assert(m1 =~= m.drop_first());
            if output_ids(cat).contains(id) {
                let i = choose|i: int| 0 <= i < m.len() && m[i] == id;
                assert(i != 0);
                assert(m1[i - 1] == id);
            }
            if output_ids(cat.drop_first()).contains(id) {
                let i = choose|i: int| 0 <= i < m1.len() && m1[i] == id;
                assert(m[i + 1] == id);
            }
        }
    }
}

impl ReactionDatabase {
    /// Builds a catalog from an already-decoded list of reactions.
    pub fn new(reactions: Vec<Reaction>) -> (db: ReactionDatabase)
        ensures
            db.reactions == reactions,
    {
        ReactionDatabase { reactions }
    }

    /// The reaction that produces the item with the given id, if the catalog
    /// knows one; `None` marks a raw good that cannot be produced.
    pub fn lookup_by_output(&self, id: u32) -> (r: Option<&Reaction>)
        ensures
            match r {
                Some(rr) => spec_lookup(self.reactions@, id) == Some(*rr),
                None => spec_lookup(self.reactions@, id) is None,
            },
    {
        let n = self.reactions.len();
        proof {
            assert(self.reactions@.skip(0) =~= self.reactions@);
        }
        for i in 0..n
            invariant
                n == self.reactions@.len(),
                spec_lookup(self.reactions@, id) == spec_lookup(self.reactions@.skip(i as int), id),
        {
            proof {
                lemma_lookup_skip_step(self.reactions@, id, i as int);
            }
            if self.reactions[i].output.id == id {
                return Some(&self.reactions[i]);
            }
        }
        None
    }

    /// The id the catalog resolves a name to, if the name is mentioned by
    /// any reaction's output or input.
    pub fn name_to_id(&self, name: &str) -> (r: Option<u32>)
        ensures
            r == spec_name_to_id(self.reactions@, name@),
    {
        let cat = &self.reactions;
        let n = cat.len();
        proof {
            assert(cat@.skip(0) =~= cat@);
        }
        for i in 0..n
            invariant
                n == cat@.len(),
                cat@ == self.reactions@,
                spec_name_to_id(cat@, name@) == spec_name_to_id(cat@.skip(i as int), name@),
        {
            proof {
                lemma_name_to_id_skip_step(cat@, name@, i as int);
            }
            if str_eq(cat[i].output.name.as_str(), name) {
                return Some(cat[i].output.id);
            }
            let inputs = &cat[i].inputs;
            let m = inputs.len();
            proof {
                assert(inputs@.skip(0) =~= inputs@);
            }
            for j in 0..m
                invariant
                    m == inputs@.len(),
                    0 <= i < cat@.len(),
                    cat@ == self.reactions@,
                    inputs@ == cat@[i as int].inputs@,
                    cat@[i as int].output.name@ != name@,
                    spec_name_to_id(cat@, name@) == spec_name_to_id(cat@.skip(i as int), name@),
                    first_input_with_name(inputs@, name@) == first_input_with_name(
                        inputs@.skip(j as int),
                        name@,
                    ),
            {
                proof {
                    lemma_first_input_skip_step(inputs@, name@, j as int);
                }
                if str_eq(inputs[j].name.as_str(), name) {
                    proof {
                        lemma_name_to_id_skip_step(cat@, name@, i as int);
                    }
                    return Some(inputs[j].id);
                }
            }
            proof {
                assert(inputs@.skip(m as int) =~= Seq::<ReactionItem>::empty());
            }
        }
        proof {
            assert(cat@.skip(n as int) =~= Seq::<Reaction>::empty());
        }
        None
    }

    /// All distinct item names the catalog mentions, first occurrence
    /// first: the set of names one batched price lookup must cover.
    pub fn get_all_item_names(&self) -> (r: Vec<String>)
        ensures
            forall|a: int, b: int| 0 <= a < b < r@.len() ==> r@[a]@ != r@[b]@,
            forall|a: int| 0 <= a < r@.len() ==> catalog_names(self.reactions@).contains(r@[a]@),
            forall|n: Seq<char>| catalog_names(self.reactions@).contains(n) ==> name_in(r@, n),
    {
        let ghost cat = self.reactions@;
        let mut names: Vec<String> = Vec::new();
        let n = self.reactions.len();
        for i in 0..n
            invariant
                n == cat.len(),
                cat == self.reactions@,
                forall|a: int, b: int| 0 <= a < b < names@.len() ==> names@[a]@ != names@[b]@,
                forall|a: int|
                    0 <= a < names@.len() ==> catalog_names(cat).contains(names@[a]@),
                forall|nm: Seq<char>|
                    prefix_mentions(cat, i as int, nm) ==> name_in(names@, nm),
        {
            let ghost before_i = names@;
            let reaction = &self.reactions[i];
            if !contains_name(&names, reaction.output.name.as_str()) {
                let ghost pre = names@;
                names.push(reaction.output.name.clone());
                proof {
                    lemma_name_in_push(pre, reaction.output.name);
                    assert(names@ == pre.push(reaction.output.name));
                    assert(cat[i as int].output.name@ == reaction.output.name@);
                    assert(catalog_names(cat).contains(reaction.output.name@));
                    assert forall|nm: Seq<char>|
                        prefix_mentions(cat, i as int, nm) implies name_in(names@, nm) by {
                        assert(name_in(pre, nm));
                    }
                }
            }
            proof {
                assert(name_in(names@, cat[i as int].output.name@));
            }
            let m = reaction.inputs.len();
            for j in 0..m
                invariant
                    m == reaction.inputs@.len(),
                    reaction.inputs@ == cat[i as int].inputs@,
                    0 <= i < cat.len(),
                    cat == self.reactions@,
                    forall|a: int, b: int| 0 <= a < b < names@.len() ==> names@[a]@ != names@[b]@,
                    forall|a: int|
                        0 <= a < names@.len() ==> catalog_names(cat).contains(names@[a]@),
                    forall|nm: Seq<char>|
                        prefix_mentions(cat, i as int, nm) ==> name_in(names@, nm),
                    name_in(names@, cat[i as int].output.name@),
                    forall|q: int|
                        0 <= q < j ==> name_in(names@, #[trigger] cat[i as int].inputs@[q].name@),
            {
                let input = &reaction.inputs[j];
                if !contains_name(&names, input.name.as_str()) {
                    let ghost pre = names@;
                    names.push(input.name.clone());
                    proof {
                        lemma_name_in_push(pre, input.name);
                        assert(names@ == pre.push(input.name));
                        assert(cat[i as int].inputs@[j as int].name@ == input.name@);
                        assert(catalog_names(cat).contains(input.name@));
                        assert forall|nm: Seq<char>|
                            prefix_mentions(cat, i as int, nm) implies name_in(names@, nm) by {
                            assert(name_in(pre, nm));
                        }
                        assert(name_in(names@, cat[i as int].output.name@)) by {
                            assert(name_in(pre, cat[i as int].output.name@));
                        }
                        assert forall|q: int| 0 <= q < j implies name_in(
                            names@,
                            #[trigger] cat[i as int].inputs@[q].name@,
                        ) by {
                            assert(name_in(pre, cat[i as int].inputs@[q].name@));
                        }
                    }
                }
            }
            proof {
                assert forall|nm: Seq<char>|
                    prefix_mentions(cat, i as int + 1, nm) implies name_in(names@, nm) by {
                    let p = choose|p: int|
                        0 <= p < i as int + 1 && p < cat.len() && (cat[p].output.name@ == nm
                            || exists|q: int|
                            0 <= q < cat[p].inputs@.len() && cat[p].inputs@[q].name@ == nm);
                    if p < i as int {
                        assert(prefix_mentions(cat, i as int, nm));
                    } else {
                        if cat[p].output.name@ != nm {
                            let q = choose|q: int|
                                0 <= q < cat[p].inputs@.len() && cat[p].inputs@[q].name@ == nm;
                            assert(name_in(names@, cat[i as int].inputs@[q].name@));
                        }
                    }
                }
            }
        }
        proof {
            assert forall|nm: Seq<char>| catalog_names(cat).contains(nm) implies name_in(
                names@,
                nm,
            ) by {
                assert(prefix_mentions(cat, n as int, nm));
            }
        }
        names
    }


    /// Resolves the user's material names to catalog item ids. A name the
    /// catalog does not mention is silently dropped: owning an irrelevant
    /// material is not an error.
    pub fn get_user_material_ids(&self, material_names: &Vec<String>) -> (r: HashSet<u32>)
        ensures
            forall|id: u32|
                r@.contains(id) <==> exists|k: int|
                    0 <= k < material_names@.len() && spec_name_to_id(
                        self.reactions@,
                        #[trigger] material_names@[k]@,
                    ) == Some(id),
    {
        let ghost cat = self.reactions@;
        let mut ids: HashSet<u32> = HashSet::new();
        let n = material_names.len();
        for k in 0..n
            invariant
                n == material_names@.len(),
                cat == self.reactions@,
                forall|id: u32|
                    ids@.contains(id) <==> exists|p: int|
                        0 <= p < k && spec_name_to_id(cat, #[trigger] material_names@[p]@)
                            == Some(id),
        {
            if let Some(id) = self.name_to_id(material_names[k].as_str()) {
                ids.insert(id);
            }
        }
        ids
    }
}

/// The names mentioned anywhere in the catalog: every reaction's output
/// name and every input name.
pub open spec fn catalog_names(cat: Seq<Reaction>) -> Set<Seq<char>> {
    Set::new(
        |n: Seq<char>|
            exists|i: int|
                0 <= i < cat.len() && (cat[i].output.name@ == n || exists|j: int|
                    0 <= j < cat[i].inputs@.len() && cat[i].inputs@[j].name@ == n),
    )
}

/// The id the catalog's name index resolves a name to: the first output
/// with that name, else the first input with that name, scanning reactions
/// in order. Names are unique within one loaded catalog, so which mention
/// wins is immaterial.
pub open spec fn spec_name_to_id(cat: Seq<Reaction>, name: Seq<char>) -> Option<u32>
    decreases cat.len(),
{
    if cat.len() == 0 {
        None
    } else if cat[0].output.name@ == name {
        Some(cat[0].output.id)
    } else {
        match first_input_with_name(cat[0].inputs@, name) {
            Some(id) => Some(id),
            None => spec_name_to_id(cat.drop_first(), name),
        }
    }
}

/// The id of the first input slot carrying the given name.
pub open spec fn first_input_with_name(inputs: Seq<ReactionItem>, name: Seq<char>) -> Option<u32>
    decreases inputs.len(),
{
    if inputs.len() == 0 {
        None
    } else if inputs[0].name@ == name {
        Some(inputs[0].id)
    } else {
        first_input_with_name(inputs.drop_first(), name)
    }
}

/// The names mentioned by the first `k` reactions of the catalog.
pub open spec fn prefix_mentions(cat: Seq<Reaction>, k: int, nm: Seq<char>) -> bool {
    exists|p: int|
        0 <= p < k && p < cat.len() && (cat[p].output.name@ == nm || exists|q: int|
            0 <= q < cat[p].inputs@.len() && cat[p].inputs@[q].name@ == nm)
}

/// Some entry of the list carries this character sequence as its name.
pub open spec fn name_in(names: Seq<String>, n: Seq<char>) -> bool {
    exists|k: int| 0 <= k < names.len() && names[k]@ == n
}

/// Appending a name keeps every present name present, adds the appended
/// one, and adds nothing else.
pub proof fn lemma_name_in_push(names: Seq<String>, v: String)
    ensures
        forall|n: Seq<char>| name_in(names, n) ==> name_in(names.push(v), n),
        name_in(names.push(v), v@),
        forall|n: Seq<char>| name_in(names.push(v), n) ==> name_in(names, n) || n == v@,
{
    assert forall|n: Seq<char>| name_in(names, n) implies name_in(names.push(v), n) by {
        let k = choose|k: int| 0 <= k < names.len() && names[k]@ == n;
        assert(names.push(v)[k] == names[k]);
    }
    assert(names.push(v)[names.len() as int] == v);
    assert forall|n: Seq<char>| name_in(names.push(v), n) implies name_in(names, n) || n == v@ by {
        let k = choose|k: int| 0 <= k < names.push(v).len() && names.push(v)[k]@ == n;
        if k < names.len() {
            assert(names[k]@ == n);
        }
    }
}

/// Whether the list already holds the name.
pub fn contains_name(names: &Vec<String>, name: &str) -> (r: bool)
    ensures
        r == name_in(names@, name@),
{
    let n = names.len();
    for k in 0..n
        invariant
            n == names@.len(),
            forall|j: int| 0 <= j < k ==> names@[j]@ != name@,
    {
        if str_eq(names[k].as_str(), name) {
            return true;
        }
    }
    false
}

/// Unrolls one step of `first_input_with_name` over a suffix.
proof fn lemma_first_input_skip_step(inputs: Seq<ReactionItem>, name: Seq<char>, i: int)
    requires
        0 <= i < inputs.len(),
    ensures
        inputs[i].name@ == name ==> first_input_with_name(inputs.skip(i), name) == Some(
            inputs[i].id,
        ),
        inputs[i].name@ != name ==> first_input_with_name(inputs.skip(i), name)
            == first_input_with_name(inputs.skip(i + 1), name),
{
    assert(inputs.skip(i)[0] == inputs[i]);
    assert(inputs.skip(i).drop_first() =~= inputs.skip(i + 1));
}

/// Unrolls one step of `spec_name_to_id` over a suffix of the catalog.
proof fn lemma_name_to_id_skip_step(cat: Seq<Reaction>, name: Seq<char>, i: int)
    requires
        0 <= i < cat.len(),
    ensures
        cat[i].output.name@ == name ==> spec_name_to_id(cat.skip(i), name) == Some(
            cat[i].output.id,
        ),
        cat[i].output.name@ != name ==> spec_name_to_id(cat.skip(i), name) == match
            first_input_with_name(cat[i].inputs@, name) {
            Some(id) => Some(id),
            None => spec_name_to_id(cat.skip(i + 1), name),
        },
{
    assert(cat.skip(i)[0] == cat[i]);
    assert(cat.skip(i).drop_first() =~= cat.skip(i + 1));
}

/// Unrolls one step of `spec_lookup` over a suffix of the catalog.
proof fn lemma_lookup_skip_step(cat: Seq<Reaction>, id: u32, i: int)
    requires
        0 <= i < cat.len(),
    ensures
        cat[i].output.id == id ==> spec_lookup(cat.skip(i), id) == Some(cat[i]),
        cat[i].output.id != id ==> spec_lookup(cat.skip(i), id) == spec_lookup(
            cat.skip(i + 1),
            id,
        ),
{
    assert(cat.skip(i).len() > 0);
    assert(cat.skip(i)[0] == cat[i]);
    assert(cat.skip(i).drop_first() =~= cat.skip(i + 1));
}

} // verus!
