use vstd::prelude::*;

use crate::meme::MemeView;
use crate::registry::{
    donated, in_museum, index_of_id, lemma_in_museum_members, lemma_in_museum_push,
    lemma_index_of_id, lemma_index_of_id_same, lookup,
};

verus! {

/// Entries created one after another into the museum `name` are listed for that
/// museum after those it held before, each once and in order of creation; and
/// every entry listed for a museum is an entry of the store, of that museum.
pub proof fn lemma_creations_listed_in_order(
    before: Seq<MemeView>,
    created: Seq<MemeView>,
    name: Seq<char>,
)
    requires
        forall|i: int| 0 <= i < created.len() ==> (#[trigger] created[i]).museo == name,
    ensures
        in_museum(before + created, name) == in_museum(before, name) + created,
        before.len() == 0 ==> in_museum(before + created, name) == created,
        forall|j: int| 0 <= j < in_museum(before + created, name).len() ==>
            exists|i: int| 0 <= i < (before + created).len() && (before + created)[i] == #[trigger] in_museum(before + created, name)[j],
        forall|j: int| 0 <= j < in_museum(before + created, name).len() ==>
            (#[trigger] in_museum(before + created, name)[j]).museo == name,
    decreases created.len(),
{
    lemma_in_museum_members(before + created, name);
    if created.len() == 0 {
        assert(before + created =~= before);
        assert(in_museum(before, name) + created =~= in_museum(before, name));
    } else {
        let rest = created.drop_last();
        let x = created.last();
        assert forall|i: int| 0 <= i < rest.len() implies (#[trigger] rest[i]).museo == name by {
            assert(rest[i] == created[i]);
        }
        lemma_creations_listed_in_order(before, rest, name);
        assert(before + created =~= (before + rest).push(x));
        lemma_in_museum_push(before + rest, x, name);
        assert(created[created.len() - 1].museo == name);
        assert((in_museum(before, name) + rest).push(x) =~= in_museum(before, name) + created);
    }
    if before.len() == 0 {
        assert(in_museum(before, name) =~= Seq::<MemeView>::empty());
        assert(in_museum(before, name) + created =~= created);
    }
}

/// An entry just added to the store is what a lookup of its identifier gives,
/// every field as it was stored.
pub proof fn lemma_get_after_create(before: Seq<MemeView>, m: MemeView)
    ensures
        lookup(before.push(m), m.id) == Some(m),
{
    assert(before.push(m).last() == m);
}

/// Creating an entry under another identifier leaves what a lookup of `id` gives.
pub proof fn lemma_get_kept_by_other_creation(before: Seq<MemeView>, m: MemeView, id: u64)
    requires
        m.id != id,
    ensures
        lookup(before.push(m), id) == lookup(before, id),
{
    assert(before.push(m).drop_last() =~= before);
    lemma_index_of_id(before, id);
}

/// A donation to the entry at `i`, whose identifier is not `id`, leaves what a
/// lookup of `id` gives.
pub proof fn lemma_get_kept_by_other_donation(ms: Seq<MemeView>, i: int, amount: u128, id: u64)
    requires
        0 <= i < ms.len(),
        ms[i].id != id,
    ensures
        lookup(ms.update(i, donated(ms[i], amount)), id) == lookup(ms, id),
{
    let ns = ms.update(i, donated(ms[i], amount));
    assert forall|k: int| 0 <= k < ms.len() implies ms[k].id == ns[k].id by {
        if k != i {
            assert(ns[k] == ms[k]);
        }
    }
    lemma_index_of_id_same(ms, ns, id);
    lemma_index_of_id(ms, id);
    let x = index_of_id(ms, id);
    if x >= 0 {
        assert(x != i);
        assert(ns[x] == ms[x]);
    }
}

} // verus!
