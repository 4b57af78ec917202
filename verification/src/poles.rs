//! Poles, the links between them, and the chain they form.

use crate::settings::HardReset;
use itertools::Itertools;
use std::collections::HashMap;
use vstd::prelude::*;

verus! {

/// What a pole has on one side: nothing, or the pole with the given identifier.
#[derive(Clone, Copy, Debug, PartialEq, Eq, Structural)]
pub enum Neighbour {
    Empty,
    Pole(u64),
}

/// The two links of one pole.
#[derive(Clone, Copy, Debug, PartialEq, Eq, Structural)]
pub struct Pole {
    pub below: Neighbour,
    pub above: Neighbour,
}

/// Why a chain could not be built.
#[derive(Clone, Copy, Debug, PartialEq, Eq, Structural)]
pub enum SpawnError {
    /// No identifier was given: a chain has at least one pole.
    NoPoles,
    /// An identifier was given twice: a pole stands at one place only.
    DuplicatePole,
}

/// The links of the pole at place `i`, counted from the bottom, in a chain
/// whose identifiers from bottom to top are `ids`.
pub open spec fn links_at(ids: Seq<u64>, i: int) -> Pole {
    Pole {
        below: if i == 0 {
            Neighbour::Empty
        } else {
            Neighbour::Pole(ids[i - 1])
        },
        above: if i == ids.len() - 1 {
            Neighbour::Empty
        } else {
            Neighbour::Pole(ids[i + 1])
        },
    }
}

/// The links of all poles of a chain whose identifiers from bottom to top
/// are `ids`.
pub open spec fn chain_links(ids: Seq<u64>) -> Seq<Pole> {
    Seq::new(ids.len(), |i: int| links_at(ids, i))
}

/// The identifiers as links, with the empty link that closes each end.
spec fn link_row(ids: Seq<u64>) -> Seq<Neighbour> {
    Seq::new(
        ids.len() + 2,
        |k: int|
            if 1 <= k <= ids.len() {
                Neighbour::Pole(ids[k - 1])
            } else {
                Neighbour::Empty
            },
    )
}

/// A chain of poles: an arena in spatial order, bottom first, with a table
/// that finds the place of an identifier.
pub struct Chain {
    ids: Vec<u64>,
    poles: Vec<Pole>,
    lookup: HashMap<u64, usize>,
}

impl View for Chain {
    type V = Seq<u64>;

    /// The identifiers of the poles, from the bottom to the top.
    closed spec fn view(&self) -> Seq<u64> {
        self.ids@
    }
}

impl Chain {
    /// The links of the poles, from the bottom to the top.
    pub closed spec fn links(&self) -> Seq<Pole> {
        self.poles@
    }

    #[verifier::type_invariant]
    spec fn inv(&self) -> bool {
        &&& self.ids@.len() >= 1
        &&& self.poles@ == chain_links(self.ids@)
        &&& forall|i: int|
            0 <= i < self.ids@.len() ==> self.lookup@.contains_key(#[trigger] self.ids@[i])
                && self.lookup@[self.ids@[i]] == i
        &&& forall|id: u64| #[trigger]
            self.lookup@.contains_key(id) ==> self.lookup@[id] < self.ids@.len()
                && self.ids@[self.lookup@[id] as int] == id
    }

    /// The number of poles.
    pub fn len(&self) -> (n: usize)
        ensures
            n == self@.len(),
            n == self.links().len(),
            n >= 1,
    {
        proof {
            use_type_invariant(self);
        }
        self.ids.len()
    }

    /// The identifiers of the poles, from the bottom to the top.
    pub fn ids(&self) -> (ids: &Vec<u64>)
        ensures
            ids@ == self@,
            ids@.len() >= 1,
            ids@.no_duplicates(),
    {
        proof {
            use_type_invariant(self);
        }
        &self.ids
    }

    /// The links of the pole at place `i`, counted from the bottom.
    pub fn pole(&self, i: usize) -> (pole: Pole)
        requires
            i < self@.len(),
        ensures
            pole == self.links()[i as int],
            pole == links_at(self@, i as int),
    {
        proof {
            use_type_invariant(self);
        }
        self.poles[i]
    }

    /// The place of the pole with the given identifier, counted from the
    /// bottom, if the chain has such a pole.
    pub fn index_of(&self, id: u64) -> (place: Option<usize>)
        ensures
            match place {
                Some(i) => i < self@.len() && self@[i as int] == id,
                None => !self@.contains(id),
            },
    {
        proof {
            use_type_invariant(self);
        }
        match self.lookup.get(&id) {
            Some(i) => Some(*i),
            None => None,
        }
    }
}

/// Calls `Itertools::tuple_windows` of the itertools crate, asking for
/// windows of three, on the items of `row` in their order. As that crate
/// has it, the windows are the runs of three neighbouring items, first to
/// last, each item cloned into every window it stands in; a row of fewer
/// than three items has none.
#[verifier::external_body]
fn tuple_windows(row: Vec<Neighbour>) -> (windows: Vec<(Neighbour, Neighbour, Neighbour)>)
    ensures
        windows@.len() == if row@.len() >= 3 {
            row@.len() - 2
        } else {
            0
        },
        forall|i: int|
            0 <= i < windows@.len() ==> #[trigger] windows@[i] == (
                row@[i],
                row@[i + 1],
                row@[i + 2],
            ),
{
    row.into_iter().tuple_windows::<(_, _, _)>().collect()
}

/// Builds the chain of the poles `ids`, given from the bottom to the top:
/// every pole is linked to the one before it and the one after it, and the
/// two ends are linked to nothing. When the chain stands, the reset signal
/// is cleared; when it cannot be built, the signal is left as it was.
pub fn spawn(ids: Vec<u64>, hard_reset: &mut HardReset) -> (built: Result<Chain, SpawnError>)
    ensures
        match built {
            Ok(chain) => {
                &&& ids@.len() >= 1
                &&& ids@.no_duplicates()
                &&& chain@ == ids@
                &&& chain.links() == chain_links(ids@)
                &&& !final(hard_reset).0
            },
            Err(SpawnError::NoPoles) => {
                &&& ids@.len() == 0
                &&& *final(hard_reset) == *old(hard_reset)
            },
            Err(SpawnError::DuplicatePole) => {
                &&& ids@.len() >= 1
                &&& !ids@.no_duplicates()
                &&& *final(hard_reset) == *old(hard_reset)
            },
        },
{
    let n = ids.len();
    if n == 0 {
        return Err(SpawnError::NoPoles);
    }
    let mut row: Vec<Neighbour> = Vec::new();
    row.push(Neighbour::Empty);
    let mut k: usize = 0;
    while k < n
        invariant
            n == ids@.len(),
            k <= n,
            row@.len() == k + 1,
            forall|j: int| 0 <= j <= k ==> row@[j] == link_row(ids@)[j],
        decreases n - k,
    {
        row.push(Neighbour::Pole(ids[k]));
        k += 1;
    }
    row.push(Neighbour::Empty);
    assert(row@ =~= link_row(ids@));
    let windows = tuple_windows(row);
    let mut poles: Vec<Pole> = Vec::new();
    let mut lookup: HashMap<u64, usize> = HashMap::new();
    let mut i: usize = 0;
    while i < n
        invariant
            n == ids@.len(),
            n >= 1,
            i <= n,
            windows@.len() == n,
            forall|j: int|
                0 <= j < n ==> #[trigger] windows@[j] == (
                    link_row(ids@)[j],
                    link_row(ids@)[j + 1],
                    link_row(ids@)[j + 2],
                ),
            poles@.len() == i,
            forall|j: int| 0 <= j < i ==> poles@[j] == links_at(ids@, j),
            forall|j: int|
                0 <= j < i ==> lookup@.contains_key(#[trigger] ids@[j]) && lookup@[ids@[j]] == j,
            forall|id: u64| #[trigger]
                lookup@.contains_key(id) ==> lookup@[id] < i && ids@[lookup@[id] as int] == id,
            *hard_reset == *old(hard_reset),
        decreases n - i,
    {
        let (below, current, above) = windows[i];
        if let Neighbour::Pole(entity) = current {
            if lookup.contains_key(&entity) {
                proof {
                    let first = lookup@[entity] as int;
                    assert(ids@[first] == ids@[i as int] && first != i);
                }
                return Err(SpawnError::DuplicatePole);
            }
            lookup.insert(entity, i);
            poles.push(Pole { below, above });
        }
        i += 1;
    }
    proof {
        assert forall|a: int, b: int|
            0 <= a < ids@.len() && 0 <= b < ids@.len() && a != b implies ids@[a] != ids@[b] by {
            assert(lookup@[ids@[a]] == a);
            assert(lookup@[ids@[b]] == b);
        }
        assert(poles@ =~= chain_links(ids@));
    }
    hard_reset.0 = false;
    Ok(Chain { ids, poles, lookup })
}

/// The links of the pole with the identifier `id` in the chain `ids`.
pub open spec fn pole_of(ids: Seq<u64>, id: u64) -> Pole {
    links_at(ids, ids.index_of(id))
}

/// Where one stands after `steps` steps up from the bottom-most pole of the
/// chain `ids`, each step following the link `above` of the pole one stands
/// on; once past the top, one stays on nothing.
pub open spec fn climb(ids: Seq<u64>, steps: nat) -> Neighbour
    decreases steps,
{
    if steps == 0 {
        Neighbour::Pole(ids[0])
    } else {
        match climb(ids, (steps - 1) as nat) {
            Neighbour::Pole(id) => pole_of(ids, id).above,
            Neighbour::Empty => Neighbour::Empty,
        }
    }
}

/// A chain has exactly one pole with nothing below it, its first, and
/// exactly one pole with nothing above it, its last; in a chain of one pole
/// they are the same pole.
pub proof fn lemma_one_bottom_one_top(ids: Seq<u64>)
    requires
        ids.len() >= 1,
    ensures
        forall|i: int|
            0 <= i < ids.len() ==> ((#[trigger] links_at(ids, i)).below is Empty <==> i == 0),
        forall|i: int|
            0 <= i < ids.len() ==> ((#[trigger] links_at(ids, i)).above is Empty <==> i
                == ids.len() - 1),
{
}

/// Two poles that stand next to each other are linked to each other: the
/// lower one names the upper one above it, the upper one names the lower
/// one below it.
pub proof fn lemma_links_meet(ids: Seq<u64>, i: int)
    requires
        0 <= i,
        i + 1 < ids.len(),
    ensures
        links_at(ids, i).above == Neighbour::Pole(ids[i + 1]),
        links_at(ids, i + 1).below == Neighbour::Pole(ids[i]),
{
}

/// The links of a chain form one path without a cycle, in spatial order:
/// climbing from the bottom-most pole, the step of number `k` stands on the
/// pole at place `k`, for every place of the chain, and the step after the
/// last place stands on nothing.
pub proof fn lemma_climb_visits_in_order(ids: Seq<u64>, k: nat)
    requires
        ids.len() >= 1,
        ids.no_duplicates(),
        k <= ids.len(),
    ensures
        k < ids.len() ==> climb(ids, k) == Neighbour::Pole(ids[k as int]),
        k == ids.len() ==> climb(ids, k) == Neighbour::Empty,
    decreases k,
{
    if k > 0 {
        let below = (k - 1) as nat;
        lemma_climb_visits_in_order(ids, below);
        let found = ids.index_of(ids[below as int]);
        assert(0 <= found < ids.len() && ids[found] == ids[below as int]);
    }
}

} // verus!
