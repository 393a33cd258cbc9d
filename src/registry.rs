use vstd::prelude::*;

use crate::meme::{Meme, MemeView};

verus! {

/// The entries of `ms` that belong to the museum `name`, in the order of `ms`.
pub open spec fn in_museum(ms: Seq<MemeView>, name: Seq<char>) -> Seq<MemeView>
    decreases ms.len(),
{
    if ms.len() == 0 {
        Seq::empty()
    } else {
        let rest = in_museum(ms.drop_last(), name);
        if ms.last().museo == name {
            rest.push(ms.last())
        } else {
            rest
        }
    }
}

/// The identifiers of the entries `ms`, in order.
pub open spec fn ids_of(ms: Seq<MemeView>) -> Seq<u64> {
    ms.map_values(|m: MemeView| m.id)
}

/// The position of the last entry of `ms` with identifier `id`, or -1 where there is none.
pub open spec fn index_of_id(ms: Seq<MemeView>, id: u64) -> int
    decreases ms.len(),
{
    if ms.len() == 0 {
        -1
    } else if ms.last().id == id {
        ms.len() - 1
    } else {
        index_of_id(ms.drop_last(), id)
    }
}

/// The entry of `ms` with identifier `id`, if any.
pub open spec fn lookup(ms: Seq<MemeView>, id: u64) -> Option<MemeView> {
    let i = index_of_id(ms, id);
    if i >= 0 {
        Some(ms[i])
    } else {
        None
    }
}

/// Whether some entry of `ms` has identifier `id`.
pub open spec fn has_id(ms: Seq<MemeView>, id: u64) -> bool {
    exists|i: int| 0 <= i < ms.len() && ms[i].id == id
}

/// No two entries of `ms` share an identifier.
pub open spec fn ids_unique(ms: Seq<MemeView>) -> bool {
    forall|i: int, j: int|
        0 <= i < ms.len() && 0 <= j < ms.len() && ms[i].id == ms[j].id ==> i == j
}

/// Whether some entry of `ms` belongs to the museum `name`.
pub open spec fn has_museum(ms: Seq<MemeView>, name: Seq<char>) -> bool {
    exists|i: int| 0 <= i < ms.len() && ms[i].museo == name
}

/// The texts of `names`.
pub open spec fn names_of(names: Seq<String>) -> Seq<Seq<char>> {
    names.map_values(|s: String| s@)
}

/// `m` after a donation of `amount`.
pub open spec fn donated(m: MemeView, amount: u128) -> MemeView {
    MemeView {
        id: m.id,
        creado_por: m.creado_por,
        titulo: m.titulo,
        museo: m.museo,
        url: m.url,
        donaciones: (m.donaciones + amount) as u128,
    }
}

pub(crate) proof fn lemma_index_of_id(ms: Seq<MemeView>, id: u64)
    ensures
        -1 <= index_of_id(ms, id) < ms.len(),
        index_of_id(ms, id) >= 0 ==> ms[index_of_id(ms, id)].id == id,
        index_of_id(ms, id) == -1 <==> !has_id(ms, id),
        ids_unique(ms) ==> forall|i: int| 0 <= i < ms.len() && ms[i].id == id ==> index_of_id(ms, id) == i,
    decreases ms.len(),
{
    if ms.len() > 0 {
        let rest = ms.drop_last();
        lemma_index_of_id(rest, id);
        if ms.last().id != id {
            if has_id(ms, id) {
                let i = choose|i: int| 0 <= i < ms.len() && ms[i].id == id;
                assert(rest[i].id == id);
            }
            if has_id(rest, id) {
                let i = choose|i: int| 0 <= i < rest.len() && rest[i].id == id;
                assert(ms[i].id == id);
            }
            if ids_unique(ms) {
                assert forall|i: int| 0 <= i < ms.len() && ms[i].id == id implies index_of_id(ms, id) == i by {
                    assert(rest[i].id == id);
                }
            }
        } else {
            assert(ms[ms.len() - 1].id == id);
        }
    }
}

pub(crate) proof fn lemma_in_museum_members(ms: Seq<MemeView>, name: Seq<char>)
    ensures
        in_museum(ms, name).len() <= ms.len(),
        forall|j: int| 0 <= j < in_museum(ms, name).len() ==>
            exists|i: int| 0 <= i < ms.len() && ms[i] == #[trigger] in_museum(ms, name)[j],
        forall|j: int| 0 <= j < in_museum(ms, name).len() ==> (#[trigger] in_museum(ms, name)[j]).museo == name,
    decreases ms.len(),
{
    if ms.len() > 0 {
        let rest = ms.drop_last();
        lemma_in_museum_members(rest, name);
        assert forall|j: int| 0 <= j < in_museum(ms, name).len() implies
            exists|i: int| 0 <= i < ms.len() && ms[i] == #[trigger] in_museum(ms, name)[j] by {
            if j < in_museum(rest, name).len() {
                let i = choose|i: int| 0 <= i < rest.len() && rest[i] == in_museum(rest, name)[j];
                assert(ms[i] == in_museum(ms, name)[j]);
            } else {
                assert(ms[ms.len() - 1] == in_museum(ms, name)[j]);
            }
        }
    }
}

/// Entries that carry the same identifiers at each position are searched alike.
pub(crate) proof fn lemma_index_of_id_same(ms: Seq<MemeView>, ns: Seq<MemeView>, id: u64)
    requires
        ms.len() == ns.len(),
        forall|i: int| 0 <= i < ms.len() ==> ms[i].id == ns[i].id,
    ensures
        index_of_id(ms, id) == index_of_id(ns, id),
    decreases ms.len(),
{
    if ms.len() > 0 {
        let (mr, nr) = (ms.drop_last(), ns.drop_last());
        assert(ms.last().id == ns.last().id);
        assert forall|i: int| 0 <= i < mr.len() implies mr[i].id == nr[i].id by {
            assert(mr[i] == ms[i] && nr[i] == ns[i]);
        }
        lemma_index_of_id_same(mr, nr, id);
    }
}

proof fn lemma_in_museum_empty(ms: Seq<MemeView>, name: Seq<char>)
    requires
        forall|i: int| 0 <= i < ms.len() ==> ms[i].museo != name,
    ensures
        in_museum(ms, name) == Seq::<MemeView>::empty(),
    decreases ms.len(),
{
    if ms.len() > 0 {
        let rest = ms.drop_last();
        assert forall|i: int| 0 <= i < rest.len() implies rest[i].museo != name by {
            assert(ms[i] == rest[i]);
        }
        lemma_in_museum_empty(rest, name);
        assert(ms[ms.len() - 1].museo != name);
    }
}

pub(crate) proof fn lemma_in_museum_push(ms: Seq<MemeView>, m: MemeView, name: Seq<char>)
    ensures
        in_museum(ms.push(m), name) == if m.museo == name {
            in_museum(ms, name).push(m)
        } else {
            in_museum(ms, name)
        },
{
    assert(ms.push(m).drop_last() =~= ms);
}

proof fn lemma_in_museum_ids_same(ms: Seq<MemeView>, ns: Seq<MemeView>, name: Seq<char>)
    requires
        ms.len() == ns.len(),
        forall|i: int| 0 <= i < ms.len() ==> ms[i].id == ns[i].id && ms[i].museo == ns[i].museo,
    ensures
        ids_of(in_museum(ms, name)) == ids_of(in_museum(ns, name)),
    decreases ms.len(),
{
    if ms.len() > 0 {
        let (mr, nr) = (ms.drop_last(), ns.drop_last());
        assert forall|i: int| 0 <= i < mr.len() implies mr[i].id == nr[i].id && mr[i].museo == nr[i].museo by {
            assert(mr[i] == ms[i] && nr[i] == ns[i]);
        }
        lemma_in_museum_ids_same(mr, nr, name);
        let (a, b) = (in_museum(mr, name), in_museum(nr, name));
        assert(ids_of(a.push(ms.last())) =~= ids_of(a).push(ms.last().id));
        assert(ids_of(b.push(ns.last())) =~= ids_of(b).push(ns.last().id));
    }
}

/// Whether the index `ix` has a museum called `name`.
spec fn listed(ix: Seq<(String, Vec<u64>)>, name: Seq<char>) -> bool {
    exists|k: int| 0 <= k < ix.len() && ix[k].0@ == name
}

/// What a donation hands on: `amount` goes to the account `to`.
#[derive(Debug)]
pub struct Transfer {
    pub to: String,
    pub amount: u128,
}

/// Why an operation of the registry was refused; the registry is then unchanged.
#[derive(Clone, Copy, Debug, PartialEq, Eq, Structural)]
pub enum RegistryError {
    /// No entry has the identifier asked for.
    NotFound,
    /// A donation of nothing.
    InvalidAmount,
    /// An entry with that identifier exists already.
    DuplicateIdentifier,
    /// The entry's donation total would pass `u128::MAX`.
    Overflow,
}

/// The registry: an entry store keyed by identifier, and an index from each
/// museum's name to the identifiers of its entries in order of creation.
#[derive(Debug)]
pub struct SimpleMemeMuseum {
    museos: Vec<(String, Vec<u64>)>,
    memes: Vec<Meme>,
}

impl View for SimpleMemeMuseum {
    type V = Seq<MemeView>;

    /// The entries, in order of creation.
    closed spec fn view(&self) -> Seq<MemeView> {
        self.memes@.map_values(|m: Meme| m@)
    }
}

impl Default for SimpleMemeMuseum {
    /// An empty registry.
    fn default() -> (r: SimpleMemeMuseum)
        ensures
            r.wf(),
            r@ == Seq::<MemeView>::empty(),
    {
        let r = SimpleMemeMuseum { museos: Vec::new(), memes: Vec::new() };
        proof {
            assert(r@ =~= Seq::<MemeView>::empty());
        }
        r
    }
}

impl SimpleMemeMuseum {
    /// The index holds each museum once, lists for each exactly the identifiers of
    /// its entries in order, and names every museum that an entry belongs to;
    /// identifiers are unique.
    pub closed spec fn wf(&self) -> bool {
        let ms = self@;
        let ix = self.museos@;
        &&& ids_unique(ms)
        &&& forall|a: int, b: int|
            0 <= a < ix.len() && 0 <= b < ix.len() && a != b ==> ix[a].0@ != ix[b].0@
        &&& forall|k: int| 0 <= k < ix.len() ==> (#[trigger] ix[k]).1@ == ids_of(in_museum(ms, ix[k].0@))
        &&& forall|k: int| 0 <= k < ix.len() ==> (#[trigger] ix[k]).1@.len() > 0
        &&& forall|i: int| 0 <= i < ms.len() ==> listed(ix, (#[trigger] ms[i]).museo)
    }

    fn position_of(&self, id: u64) -> (r: Option<usize>)
        ensures
            match r {
                Some(i) => i == index_of_id(self@, id) && i < self@.len(),
                None => index_of_id(self@, id) == -1,
            },
    {
        proof {
            lemma_index_of_id(self@, id);
            assert(self@.subrange(0, self@.len() as int) =~= self@);
        }
        let mut i: usize = self.memes.len();
        while i > 0
            invariant
                i <= self.memes.len(),
                index_of_id(self@, id) == index_of_id(self@.subrange(0, i as int), id),
            decreases i,
        {
            let ghost sub = self@.subrange(0, i as int);
            assert(sub.drop_last() =~= self@.subrange(0, i - 1));
            if self.memes[i - 1].id == id {
                return Some(i - 1);
            }
            i -= 1;
        }
        assert(self@.subrange(0, 0) =~= Seq::<MemeView>::empty());
        None
    }

    fn museum_position(&self, name: &String) -> (r: Option<usize>)
        ensures
            match r {
                Some(k) => k < self.museos@.len() && self.museos@[k as int].0@ == name@,
                None => forall|k: int| 0 <= k < self.museos@.len() ==> self.museos@[k].0@ != name@,
            },
    {
        let mut k: usize = 0;
        while k < self.museos.len()
            invariant
                k <= self.museos@.len(),
                forall|j: int| 0 <= j < k ==> self.museos@[j].0@ != name@,
            decreases self.museos@.len() - k,
        {
            if self.museos[k].0 == *name {
                return Some(k);
            }
            k += 1;
        }
        None
    }

    /// Records a new entry `id` by `creado_por` in the museum `nombre_museo`, with no
    /// donations, and appends `id` to that museum's list, which is made where the
    /// museum is new. Refused, with nothing changed, where `id` is taken.
    pub fn crear_meme(
        &mut self,
        id: u64,
        creado_por: String,
        titulo: String,
        url: String,
        nombre_museo: String,
    ) -> (r: Result<(), RegistryError>)
        requires
            old(self).wf(),
        ensures
            final(self).wf(),
            has_id(old(self)@, id) ==> r == Err::<(), RegistryError>(RegistryError::DuplicateIdentifier)
                && final(self)@ == old(self)@,
            !has_id(old(self)@, id) ==> r == Ok::<(), RegistryError>(()) && final(self)@ == old(self)@.push(
                MemeView {
                    id,
                    creado_por: creado_por@,
                    titulo: titulo@,
                    museo: nombre_museo@,
                    url: url@,
                    donaciones: 0,
                },
            ),
    {
        proof {
            lemma_index_of_id(self@, id);
        }
        if self.position_of(id).is_some() {
            return Err(RegistryError::DuplicateIdentifier);
        }
        let ghost ms = self@;
        let ghost ix = self.museos@;
        let meme = Meme::new(id, creado_por, titulo, url, nombre_museo.clone());
        let ghost m = meme@;
        self.memes.push(meme);
        proof {
            assert(self@ =~= ms.push(m));
            assert forall|k: int| 0 <= k < ix.len() && ix[k].0@ != m.museo implies
                (#[trigger] ix[k]).1@ == ids_of(in_museum(self@, ix[k].0@)) by {
                lemma_in_museum_push(ms, m, ix[k].0@);
            }
            lemma_in_museum_push(ms, m, m.museo);
            assert(ids_of(in_museum(ms, m.museo).push(m)) =~= ids_of(in_museum(ms, m.museo)).push(id));
        }
        let ghost mut kk: int = 0;
        match self.museum_position(&nombre_museo) {
            Some(k) => {
                let mut entry = self.museos.remove(k);
                entry.1.push(id);
                self.museos.insert(k, entry);
                proof {
                    assert(self.museos@ =~= ix.update(k as int, self.museos@[k as int]));
                    kk = k as int;
                }
            },
            None => {
                proof {
                    assert forall|i: int| 0 <= i < ms.len() implies ms[i].museo != m.museo by {
                        assert(listed(ix, ms[i].museo));
                    }
                    lemma_in_museum_empty(ms, m.museo);
                    assert(ids_of(Seq::<MemeView>::empty().push(m)) =~= seq![id]);
                }
                let mut ids: Vec<u64> = Vec::new();
                ids.push(id);
                self.museos.push((nombre_museo, ids));
                proof {
                    assert(self.museos@ =~= ix.push((nombre_museo, ids)));
                    kk = ix.len() as int;
                }
            },
        }
        proof {
            let ms2 = self@;
            let ix2 = self.museos@;
            assert(0 <= kk < ix2.len() && ix2[kk].0@ == m.museo);
            assert(ix2.len() >= ix.len());
            assert(forall|k: int| 0 <= k < ix.len() ==> ix2[k].0@ == ix[k].0@);
            assert forall|i: int| 0 <= i < ms2.len() implies listed(ix2, (#[trigger] ms2[i]).museo) by {
                if i < ms.len() {
                    assert(ms2[i] == ms[i]);
                    assert(listed(ix, ms[i].museo));
                    let k = choose|k: int| 0 <= k < ix.len() && ix[k].0@ == ms[i].museo;
                    assert(ix2[k].0@ == ix[k].0@);
                } else {
                    assert(ms2[i] == m);
                    assert(ix2[kk].0@ == ms2[i].museo);
                }
            }
            assert(ids_unique(ms2)) by {
                assert forall|i: int, j: int|
                    0 <= i < ms2.len() && 0 <= j < ms2.len() && ms2[i].id == ms2[j].id implies i == j by {
                    if i < ms.len() {
                        assert(ms2[i] == ms[i]);
                    }
                    if j < ms.len() {
                        assert(ms2[j] == ms[j]);
                    }
                }
            }
        }
        Ok(())
    }

    /// The entries of the museum `nombre_museo`, in order of creation; none where no
    /// entry names that museum. An identifier without an entry is passed over.
    pub fn obtener_memes_museo(&self, nombre_museo: String) -> (r: Vec<Meme>)
        requires
            self.wf(),
        ensures
            r@.map_values(|m: Meme| m@) == in_museum(self@, nombre_museo@),
    {
        let ghost ms = self@;
        let ghost want = in_museum(ms, nombre_museo@);
        proof {
            lemma_in_museum_members(ms, nombre_museo@);
        }
        match self.museum_position(&nombre_museo) {
            None => {
                proof {
                    assert forall|i: int| 0 <= i < ms.len() implies ms[i].museo != nombre_museo@ by {
                        assert(listed(self.museos@, ms[i].museo));
                    }
                    lemma_in_museum_empty(ms, nombre_museo@);
                }
                let r: Vec<Meme> = Vec::new();
                proof {
                    assert(r@.map_values(|m: Meme| m@) =~= want);
                }
                r
            },
            Some(k) => {
                let ids = &self.museos[k].1;
                assert(ids@ == ids_of(want));
                let mut r: Vec<Meme> = Vec::new();
                let mut j: usize = 0;
                while j < ids.len()
                    invariant
                        ms == self@,
                        want == in_museum(ms, nombre_museo@),
                        ids@ == ids_of(want),
                        self.wf(),
                        j <= ids@.len(),
                        r@.map_values(|m: Meme| m@) == want.subrange(0, j as int),
                        forall|x: int| 0 <= x < want.len() ==>
                            exists|i: int| 0 <= i < ms.len() && ms[i] == #[trigger] want[x],
                    decreases ids@.len() - j,
                {
                    let ghost w = want[j as int];
                    proof {
                        let i0 = choose|i: int| 0 <= i < ms.len() && ms[i] == want[j as int];
                        lemma_index_of_id(ms, ids@[j as int]);
                        assert(ms[i0].id == ids@[j as int]);
                        assert(index_of_id(ms, ids@[j as int]) == i0);
                    }
                    let ghost before = r@.map_values(|m: Meme| m@);
                    match self.position_of(ids[j]) {
                        Some(i) => {
                            let d = self.memes[i].duplicate();
                            assert(d@ == w);
                            r.push(d);
                            assert(r@.map_values(|m: Meme| m@) =~= before.push(w));
                        },
                        None => {},
                    }
                    proof {
                        assert(r@.map_values(|m: Meme| m@) =~= want.subrange(0, j + 1));
                    }
                    j += 1;
                }
                proof {
                    assert(want.subrange(0, want.len() as int) =~= want);
                }
                r
            },
        }
    }

    /// Adds `deposito` to the donations of entry `id` and says what is to be
    /// handed to its creator. Refused, with nothing changed, where `deposito` is
    /// zero, where no entry is `id`, or where the total would pass `u128::MAX`.
    pub fn donar_a_meme(&mut self, id: u64, deposito: u128) -> (r: Result<Transfer, RegistryError>)
        requires
            old(self).wf(),
        ensures
            final(self).wf(),
            deposito == 0 ==> r is Err && r->Err_0 == RegistryError::InvalidAmount && final(self)@ == old(self)@,
            deposito > 0 && !has_id(old(self)@, id) ==> r is Err && r->Err_0 == RegistryError::NotFound
                && final(self)@ == old(self)@,
            deposito > 0 && has_id(old(self)@, id) && old(self)@[index_of_id(old(self)@, id)].donaciones
                + deposito > u128::MAX ==> r is Err && r->Err_0 == RegistryError::Overflow && final(self)@
                == old(self)@,
            deposito > 0 && has_id(old(self)@, id) && old(self)@[index_of_id(old(self)@, id)].donaciones
                + deposito <= u128::MAX ==> r is Ok && r->Ok_0.to@ == old(self)@[index_of_id(
                old(self)@,
                id,
            )].creado_por && r->Ok_0.amount == deposito && final(self)@ == old(self)@.update(
                index_of_id(old(self)@, id),
                donated(old(self)@[index_of_id(old(self)@, id)], deposito),
            ),
    {
        proof {
            lemma_index_of_id(self@, id);
        }
        if deposito == 0 {
            return Err(RegistryError::InvalidAmount);
        }
        let i = match self.position_of(id) {
            Some(i) => i,
            None => {
                return Err(RegistryError::NotFound);
            },
        };
        let total = match self.memes[i].donaciones.checked_add(deposito) {
            Some(t) => t,
            None => {
                return Err(RegistryError::Overflow);
            },
        };
        let ghost ms = self@;
        let mut meme = self.memes.remove(i);
        meme.donaciones = total;
        let to = meme.creado_por.clone();
        self.memes.insert(i, meme);
        proof {
            let ms2 = self@;
            assert(ms2 =~= ms.update(i as int, donated(ms[i as int], deposito)));
            assert forall|k: int| 0 <= k < self.museos@.len() implies (#[trigger] self.museos@[k]).1@ == ids_of(
                in_museum(ms2, self.museos@[k].0@),
            ) by {
                lemma_in_museum_ids_same(ms, ms2, self.museos@[k].0@);
            }
            assert forall|x: int| 0 <= x < ms2.len() implies listed(self.museos@, (#[trigger] ms2[x]).museo) by {
                assert(ms[x].museo == ms2[x].museo);
                assert(listed(self.museos@, ms[x].museo));
            }
            assert(ids_unique(ms2)) by {
                assert forall|a: int, b: int|
                    0 <= a < ms2.len() && 0 <= b < ms2.len() && ms2[a].id == ms2[b].id implies a == b by {
                    assert(ms[a].id == ms2[a].id && ms[b].id == ms2[b].id);
                }
            }
        }
        Ok(Transfer { to, amount: deposito })
    }

    /// The names of the museums, each once: exactly those that some entry names.
    pub fn obtener_lista_mueseos(&self) -> (r: Vec<String>)
        requires
            self.wf(),
        ensures
            names_of(r@).no_duplicates(),
            forall|a: int| 0 <= a < r@.len() ==> has_museum(self@, #[trigger] names_of(r@)[a]),
            forall|i: int| 0 <= i < self@.len() ==> names_of(r@).contains(#[trigger] self@[i].museo),
    {
        let ghost ms = self@;
        let ghost ix = self.museos@;
        let mut r: Vec<String> = Vec::new();
        let mut k: usize = 0;
        while k < self.museos.len()
            invariant
                k <= ix.len(),
                ix == self.museos@,
                r@.len() == k,
                forall|a: int| 0 <= a < k ==> (#[trigger] r@[a])@ == ix[a].0@,
            decreases ix.len() - k,
        {
            r.push(self.museos[k].0.clone());
            k += 1;
        }
        proof {
            let names = names_of(r@);
            assert forall|a: int, b: int| 0 <= a < names.len() && 0 <= b < names.len() && a != b implies names[a] != names[b] by {
                assert(names[a] == ix[a].0@ && names[b] == ix[b].0@);
            }
            assert forall|a: int| 0 <= a < r@.len() implies has_museum(ms, #[trigger] names[a]) by {
                let name = ix[a].0@;
                lemma_in_museum_members(ms, name);
                assert(ix[a].1@.len() > 0);
                assert(in_museum(ms, name).len() > 0);
                let w = in_museum(ms, name)[0];
                assert(w.museo == name);
                let i = choose|i: int| 0 <= i < ms.len() && ms[i] == w;
                assert(ms[i].museo == names[a]);
            }
            assert forall|i: int| 0 <= i < ms.len() implies names.contains(#[trigger] ms[i].museo) by {
                assert(listed(ix, ms[i].museo));
                let k = choose|k: int| 0 <= k < ix.len() && ix[k].0@ == ms[i].museo;
                assert(names[k] == ix[k].0@);
            }
        }
        r
    }

    /// A registry that holds `entries`, in their order and with their donation
    /// totals, as a store that was given them one by one would; refused where two
    /// entries share an identifier.
    pub fn restaurar(entries: &Vec<Meme>) -> (r: Result<SimpleMemeMuseum, RegistryError>)
        ensures
            ids_unique(entries@.map_values(|m: Meme| m@)) <==> r is Ok,
            r is Ok ==> r->Ok_0.wf() && r->Ok_0@ == entries@.map_values(|m: Meme| m@),
            r is Err ==> r->Err_0 == RegistryError::DuplicateIdentifier,
    {
        let ghost es = entries@.map_values(|m: Meme| m@);
        let mut reg = SimpleMemeMuseum::default();
        let mut j: usize = 0;
        while j < entries.len()
            invariant
                es == entries@.map_values(|m: Meme| m@),
                j <= entries@.len(),
                reg.wf(),
                reg@ == es.subrange(0, j as int),
            decreases entries@.len() - j,
        {
            let e = &entries[j];
            let ghost before = reg@;
            let created = reg.crear_meme(
                e.id,
                e.creado_por.clone(),
                e.titulo.clone(),
                e.url.clone(),
                e.museo.clone(),
            );
            if created.is_err() {
                proof {
                    let i = choose|i: int| 0 <= i < before.len() && before[i].id == e.id;
                    assert(es[i].id == es[j as int].id && i != j);
                }
                return Err(RegistryError::DuplicateIdentifier);
            }
            if e.donaciones > 0 {
                let ghost mid = reg@;
                proof {
                    assert(mid.last().id == e.id);
                    assert(mid.drop_last() =~= before);
                    assert(has_id(mid, e.id));
                }
                let d = reg.donar_a_meme(e.id, e.donaciones);
                assert(d is Ok);
            }
            proof {
                assert(reg@ =~= es.subrange(0, j + 1));
            }
            j += 1;
        }
        proof {
            assert(es.subrange(0, es.len() as int) =~= es);
        }
        Ok(reg)
    }

    /// The entry with identifier `id`, if there is one.
    pub fn obtener_meme(&self, id: u64) -> (r: Option<Meme>)
        ensures
            match r {
                Some(m) => lookup(self@, id) == Some(m@),
                None => lookup(self@, id) == None::<MemeView>,
            },
    {
        match self.position_of(id) {
            Some(i) => Some(self.memes[i].duplicate()),
            None => None,
        }
    }

    /// Every entry with its identifier, in order of creation.
    pub fn obtener_lista_memes(&self) -> (r: Vec<(u64, Meme)>)
        ensures
            r@.len() == self@.len(),
            forall|i: int| 0 <= i < r@.len() ==> r@[i].0 == self@[i].id && (#[trigger] r@[i]).1@ == self@[i],
            self.wf() ==> forall|i: int, j: int| 0 <= i < j < r@.len() ==> r@[i].0 != r@[j].0,
            self.wf() ==> forall|i: int| 0 <= i < r@.len() ==> lookup(self@, (#[trigger] r@[i]).0) == Some(r@[i].1@),
    {
        let mut r: Vec<(u64, Meme)> = Vec::new();
        let mut i: usize = 0;
        while i < self.memes.len()
            invariant
                i <= self.memes@.len(),
                r@.len() == i,
                forall|j: int| 0 <= j < i ==> r@[j].0 == self@[j].id && (#[trigger] r@[j]).1@ == self@[j],
            decreases self.memes@.len() - i,
        {
            let m = self.memes[i].duplicate();
            r.push((m.id, m));
            i += 1;
        }
        proof {
            if self.wf() {
                assert forall|k: int| 0 <= k < r@.len() implies lookup(self@, (#[trigger] r@[k]).0) == Some(r@[k].1@) by {
                    lemma_index_of_id(self@, self@[k].id);
                }
            }
        }
        r
    }

    /// In a well-formed registry no two entries share an identifier.
    pub proof fn lemma_ids_unique(&self)
        requires
            self.wf(),
        ensures
            ids_unique(self@),
    {
    }
}

} // verus!
