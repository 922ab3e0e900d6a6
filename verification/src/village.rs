//! Villagers with a strict alive/dead lifecycle, the village that owns them,
//! and the nightly murderer resolution.

use vstd::prelude::*;

verus! {

use crate::rng::coin_flip;
use crate::rng::fresh_rng;
use crate::rng::shuffle_labels;

/// The category of a villager, fixing how it interacts with a visiting mini
/// and with nightly attacks.
#[derive(Debug, PartialEq, Eq, Structural, Clone, Copy)]
pub enum VillagerType {
    Normal,
    /// Strong villagers survive one attack (the flag is true while the
    /// resistance is still unused).
    Strong(bool),
    /// Afraid villagers destroy visiting minis (but leave their logs alone).
    Afraid,
    Murderer,
}

/// Villagers have two lifecycle states: `Alive` and `Dead`.
#[derive(Clone, Copy)]
pub struct Alive;

#[derive(Clone, Copy)]
pub struct Dead;

/// Declares `Alive` and `Dead` as villager lifecycle states.
pub trait VillagerStatus {}

impl VillagerStatus for Alive {}

impl VillagerStatus for Dead {}

pub type LivingVillager = Villager<Alive>;

pub type DeadVillager = Villager<Dead>;

/// A villager. The lifecycle state is part of the type, so that killing a
/// villager consumes the living record and hands back a dead one: the
/// transition happens exactly once and never in reverse.
pub struct Villager<S: VillagerStatus> {
    kind: VillagerType,
    label: u8,
    marker: core::marker::PhantomData<S>,
}

impl<S: VillagerStatus> Clone for Villager<S> {
    fn clone(&self) -> (r: Self)
        ensures
            r@ == self@,
    {
        Villager { kind: self.kind, label: self.label, marker: core::marker::PhantomData }
    }
}

impl<S: VillagerStatus> Copy for Villager<S> {}

/// The mathematical content of a villager: its label and kind.
pub struct VillagerView {
    pub kind: VillagerType,
    pub label: u8,
}

impl<S: VillagerStatus> View for Villager<S> {
    type V = VillagerView;

    closed spec fn view(&self) -> VillagerView {
        VillagerView { kind: self.kind, label: self.label }
    }
}

impl LivingVillager {
    pub fn new(kind: VillagerType, label: u8) -> (r: Self)
        ensures
            r@ == (VillagerView { kind, label }),
    {
        Self { kind, label, marker: core::marker::PhantomData }
    }

    /// Only used for village generation; relabeling an already placed
    /// villager would break the village's bookkeeping.
    pub fn set_label(&mut self, label: u8)
        ensures
            final(self)@ == (VillagerView { kind: old(self)@.kind, label }),
    {
        self.label = label;
    }

    /// Used to update kinds that carry state (a strong villager spending
    /// its resistance).
    pub fn set_kind(&mut self, kind: VillagerType)
        ensures
            final(self)@ == (VillagerView { kind, label: old(self)@.label }),
    {
        self.kind = kind;
    }

    pub fn kill(self) -> (r: Villager<Dead>)
        ensures
            r@ == self@,
    {
        Villager { kind: self.kind, label: self.label, marker: core::marker::PhantomData }
    }
}

impl<S> Villager<S> where S: VillagerStatus {
    pub closed spec fn spec_label(&self) -> u8 {
        self.label
    }

    #[verifier::when_used_as_spec(spec_label)]
    pub fn label(&self) -> (r: u8)
        ensures
            r == self@.label,
    {
        self.label
    }

    pub fn has_label(&self, label: u8) -> (r: bool)
        ensures
            r == (self@.label == label),
    {
        self.label == label
    }

    pub closed spec fn spec_kind(&self) -> VillagerType {
        self.kind
    }

    #[verifier::when_used_as_spec(spec_kind)]
    pub fn kind(&self) -> (r: VillagerType)
        ensures
            r == self@.kind,
    {
        self.kind
    }
}

/// True if some entry of `s` carries `label`.
pub open spec fn seq_has_label(s: Seq<VillagerView>, label: u8) -> bool {
    exists|i: int| 0 <= i < s.len() && s[i].label == label
}

/// The index of the entry of `s` carrying `label` (meaningful only when
/// `seq_has_label(s, label)` holds and labels in `s` are distinct).
pub open spec fn label_index(s: Seq<VillagerView>, label: u8) -> int {
    choose|i: int| 0 <= i < s.len() && s[i].label == label
}

/// The kind recorded in `s` for `label` (meaningful only when present).
pub open spec fn kind_at(s: Seq<VillagerView>, label: u8) -> VillagerType {
    s[label_index(s, label)].kind
}

/// No two entries of `s` carry the same label.
pub open spec fn distinct_labels(s: Seq<VillagerView>) -> bool {
    forall|i: int, j: int| 0 <= i < j < s.len() ==> s[i].label != s[j].label
}

/// No label occurs both in `a` and in `b`.
pub open spec fn disjoint_labels(a: Seq<VillagerView>, b: Seq<VillagerView>) -> bool {
    forall|i: int, j: int|
        0 <= i < a.len() && 0 <= j < b.len() ==> a[i].label != b[j].label
}

#[derive(Debug, PartialEq, Eq, Structural, Clone, Copy)]
pub enum VillageStatus {
    Running,
    VillagersWon,
    MurdersWon,
}

/// The mathematical content of a village: the living and dead rosters, the
/// game status, and the immutable original layout.
#[verifier::ext_equal]
pub struct VillageView {
    pub living: Seq<VillagerView>,
    pub dead: Seq<VillagerView>,
    pub status: VillageStatus,
    pub layout: Seq<VillagerView>,
}

impl VillageView {
    /// The lifecycle invariant: a label names at most one villager, and that
    /// villager is living or dead, never both.
    pub open spec fn wf(self) -> bool {
        &&& distinct_labels(self.living)
        &&& distinct_labels(self.dead)
        &&& disjoint_labels(self.living, self.dead)
    }

    /// True if `label` names a villager, living or dead.
    pub open spec fn has_villager(self, label: u8) -> bool {
        seq_has_label(self.living, label) || seq_has_label(self.dead, label)
    }
}

/// True if some entry of `s` is a murderer.
pub open spec fn has_murderer(s: Seq<VillagerView>) -> bool {
    exists|i: int| 0 <= i < s.len() && s[i].kind == VillagerType::Murderer
}

/// True if every entry of `s` is a murderer.
pub open spec fn all_murderers(s: Seq<VillagerView>) -> bool {
    forall|i: int| 0 <= i < s.len() ==> s[i].kind == VillagerType::Murderer
}

/// How many entries of `s` are murderers.
pub open spec fn murderer_count(s: Seq<VillagerView>) -> nat
    decreases s.len(),
{
    if s.len() == 0 {
        0
    } else {
        murderer_count(s.drop_last()) + if s.last().kind == VillagerType::Murderer {
            1nat
        } else {
            0nat
        }
    }
}

/// The murderer count is zero exactly when no entry is a murderer, and
/// equals the length exactly when every entry is one.
pub proof fn lemma_murderer_count_characterises(s: Seq<VillagerView>)
    ensures
        murderer_count(s) <= s.len(),
        (murderer_count(s) == 0) <==> !has_murderer(s),
        (murderer_count(s) == s.len()) <==> all_murderers(s),
    decreases s.len(),
{
    if s.len() > 0 {
        let pre = s.drop_last();
        lemma_murderer_count_characterises(pre);
        assert(forall|i: int| 0 <= i < pre.len() ==> pre[i] == s[i]);
        if murderer_count(s) == 0 {
            assert forall|i: int| 0 <= i < s.len() implies s[i].kind
                != VillagerType::Murderer by {
                if i < s.len() - 1 {
                    assert(pre[i] == s[i]);
                }
            }
        }
        if has_murderer(s) {
            let w = choose|i: int| 0 <= i < s.len() && s[i].kind == VillagerType::Murderer;
            if w < s.len() - 1 {
                assert(pre[w].kind == VillagerType::Murderer);
                assert(has_murderer(pre));
            }
        }
        if murderer_count(s) == s.len() {
            assert(murderer_count(pre) == pre.len());
            assert forall|i: int| 0 <= i < s.len() implies s[i].kind
                == VillagerType::Murderer by {
                if i < s.len() - 1 {
                    assert(pre[i] == s[i]);
                }
            }
        }
        if all_murderers(s) {
            assert forall|i: int| 0 <= i < pre.len() implies pre[i].kind
                == VillagerType::Murderer by {
                assert(pre[i] == s[i]);
            }
        }
    }
}

/// The effect of a kill on the village model: the living villager carrying
/// `label` moves to the end of the dead roster; when no living villager
/// carries `label`, nothing changes.
pub open spec fn spec_kill(v: VillageView, label: u8) -> VillageView {
    if seq_has_label(v.living, label) {
        let i = label_index(v.living, label);
        VillageView {
            living: v.living.remove(i),
            dead: v.dead.push(v.living[i]),
            ..v
        }
    } else {
        v
    }
}

pub struct Village {
    pub living_villagers: Vec<LivingVillager>,
    pub dead_villagers: Vec<DeadVillager>,
    pub status: VillageStatus,
    /// The original layout of the village, shown to the player at the end of
    /// the game.
    pub layout: Vec<LivingVillager>,
}

impl View for Village {
    type V = VillageView;

    open spec fn view(&self) -> VillageView {
        VillageView {
            living: self.living_villagers@.map_values(|v: LivingVillager| v@),
            dead: self.dead_villagers@.map_values(|v: DeadVillager| v@),
            status: self.status,
            layout: self.layout@.map_values(|v: LivingVillager| v@),
        }
    }
}

/// Anything that can go wrong with a village operation.
#[derive(Debug, PartialEq, Eq, Structural, Clone, Copy)]
pub enum VillageError {
    /// Carries the label that named no living villager.
    NoSuchVillager(u8),
}

impl Village {
    /// Constructs a village with the requested number of villagers of each
    /// kind. Every label of `1..=total` is used exactly once, and which
    /// villager gets which label is decided by a random shuffle.
    pub fn new(
        normal_villagers: u8,
        strong_villagers: u8,
        afraid_villagers: u8,
        murderers: u8,
    ) -> (r: Self)
        requires
            normal_villagers + strong_villagers + afraid_villagers + murderers <= 255,
        ensures
            r@.wf(),
            r@.status == VillageStatus::Running,
            r@.dead == Seq::<VillagerView>::empty(),
            r@.layout == r@.living,
            r@.living.len() == normal_villagers + strong_villagers + afraid_villagers
                + murderers,
            forall|i: int|
                0 <= i < normal_villagers ==> r@.living[i].kind == VillagerType::Normal,
            forall|i: int|
                normal_villagers <= i < normal_villagers + strong_villagers
                    ==> r@.living[i].kind == VillagerType::Strong(true),
            forall|i: int|
                normal_villagers + strong_villagers <= i < normal_villagers + strong_villagers
                    + afraid_villagers ==> r@.living[i].kind == VillagerType::Afraid,
            forall|i: int|
                normal_villagers + strong_villagers + afraid_villagers <= i < r@.living.len()
                    ==> r@.living[i].kind == VillagerType::Murderer,
            forall|i: int|
                0 <= i < r@.living.len() ==> 1 <= r@.living[i].label && r@.living[i].label as int
                    <= r@.living.len(),
            forall|lab: u8|
                1 <= lab && lab as int <= r@.living.len() ==> seq_has_label(r@.living, lab),
    {
        let n_normal = normal_villagers as usize;
        let n_strong = strong_villagers as usize;
        let n_afraid = afraid_villagers as usize;
        let n_murderer = murderers as usize;
        let total = n_normal + n_strong + n_afraid + n_murderer;

        let mut villagers: Vec<LivingVillager> = Vec::new();
        let mut i: usize = 0;
        while i < n_normal
            invariant
                0 <= i <= n_normal,
                villagers@.len() == i,
                forall|j: int| 0 <= j < i ==> villagers@[j]@.kind == VillagerType::Normal,
            decreases n_normal - i,
        {
            villagers.push(LivingVillager::new(VillagerType::Normal, 0));
            i = i + 1;
        }
        let mut i: usize = 0;
        while i < n_strong
            invariant
                0 <= i <= n_strong,
                villagers@.len() == n_normal + i,
                forall|j: int| 0 <= j < n_normal ==> villagers@[j]@.kind == VillagerType::Normal,
                forall|j: int|
                    n_normal <= j < n_normal + i ==> villagers@[j]@.kind == VillagerType::Strong(
                        true,
                    ),
            decreases n_strong - i,
        {
            villagers.push(LivingVillager::new(VillagerType::Strong(true), 0));
            i = i + 1;
        }
        let mut i: usize = 0;
        while i < n_afraid
            invariant
                0 <= i <= n_afraid,
                villagers@.len() == n_normal + n_strong + i,
                forall|j: int| 0 <= j < n_normal ==> villagers@[j]@.kind == VillagerType::Normal,
                forall|j: int|
                    n_normal <= j < n_normal + n_strong ==> villagers@[j]@.kind
                        == VillagerType::Strong(true),
                forall|j: int|
                    n_normal + n_strong <= j < n_normal + n_strong + i ==> villagers@[j]@.kind
                        == VillagerType::Afraid,
            decreases n_afraid - i,
        {
            villagers.push(LivingVillager::new(VillagerType::Afraid, 0));
            i = i + 1;
        }
        let mut i: usize = 0;
        while i < n_murderer
            invariant
                0 <= i <= n_murderer,
                villagers@.len() == n_normal + n_strong + n_afraid + i,
                forall|j: int| 0 <= j < n_normal ==> villagers@[j]@.kind == VillagerType::Normal,
                forall|j: int|
                    n_normal <= j < n_normal + n_strong ==> villagers@[j]@.kind
                        == VillagerType::Strong(true),
                forall|j: int|
                    n_normal + n_strong <= j < n_normal + n_strong + n_afraid
                        ==> villagers@[j]@.kind == VillagerType::Afraid,
                forall|j: int|
                    n_normal + n_strong + n_afraid <= j < n_normal + n_strong + n_afraid + i
                        ==> villagers@[j]@.kind == VillagerType::Murderer,
            decreases n_murderer - i,
        {
            villagers.push(LivingVillager::new(VillagerType::Murderer, 0));
            i = i + 1;
        }

        let mut ids: Vec<u8> = Vec::new();
        let mut l: usize = 0;
        while l < total
            invariant
                0 <= l <= total,
                total <= 255,
                ids@.len() == l,
                forall|k: int| 0 <= k < l ==> ids@[k] == k + 1,
            decreases total - l,
        {
            ids.push((l + 1) as u8);
            l = l + 1;
        }
        let ghost fresh_ids = ids@;
        let mut rng = fresh_rng();
        shuffle_labels(&mut ids, &mut rng);
        proof {
            broadcast use vstd::seq_lib::group_to_multiset_ensures;

            assert(fresh_ids.no_duplicates());
            fresh_ids.lemma_multiset_has_no_duplicates();
            ids@.lemma_multiset_has_no_duplicates_conv();
            assert(ids@.len() == ids@.to_multiset().len());
            assert(fresh_ids.len() == fresh_ids.to_multiset().len());
            assert(ids@.len() == total);
            assert forall|lab: u8| 1 <= lab <= total implies ids@.contains(lab) by {
                assert(fresh_ids[lab - 1] == lab);
                assert(fresh_ids.contains(lab));
                assert(fresh_ids.to_multiset().count(lab) > 0);
                assert(ids@.to_multiset().count(lab) > 0);
            }
            assert forall|k: int| 0 <= k < ids@.len() implies 1 <= #[trigger] ids@[k] <= total by {
                assert(ids@.contains(ids@[k]));
                assert(ids@.to_multiset().count(ids@[k]) > 0);
                assert(fresh_ids.to_multiset().count(ids@[k]) > 0);
                assert(fresh_ids.contains(ids@[k]));
                let j = choose|j: int| 0 <= j < fresh_ids.len() && fresh_ids[j] == ids@[k];
                assert(fresh_ids[j] == j + 1);
            }
        }

        let mut out: Vec<LivingVillager> = Vec::new();
        let mut i: usize = 0;
        while i < total
            invariant
                0 <= i <= total,
                villagers@.len() == total,
                ids@.len() == total,
                out@.len() == i,
                forall|j: int| 0 <= j < i ==> out@[j]@.kind == villagers@[j]@.kind,
                forall|j: int| 0 <= j < i ==> out@[j]@.label == ids@[j],
            decreases total - i,
        {
            let mut v = villagers[i];
            proof {
                assert(v@ == villagers@[i as int]@);
            }
            v.set_label(ids[i]);
            proof {
                assert(v@.kind == villagers@[i as int]@.kind);
                assert(v@.label == ids@[i as int]);
            }
            let ghost pre_out = out@;
            out.push(v);
            proof {
                assert forall|j: int|
                    0 <= j < i + 1 implies out@[j]@.kind == villagers@[j]@.kind by {
                    if j < i {
                        assert(out@[j] == pre_out[j]);
                        assert(pre_out[j]@.kind == villagers@[j]@.kind);
                    } else {
                        assert(out@[j] == v);
                    }
                }
                assert forall|j: int| 0 <= j < i + 1 implies out@[j]@.label == ids@[j] by {
                    if j < i {
                        assert(out@[j] == pre_out[j]);
                        assert(pre_out[j]@.label == ids@[j]);
                    } else {
                        assert(out@[j] == v);
                    }
                }
            }
            i = i + 1;
        }

        let layout = clone_roster(&out);
        let r = Self {
            living_villagers: out,
            dead_villagers: Vec::new(),
            status: VillageStatus::Running,
            layout,
        };
        proof {
            assert(r@.dead =~= Seq::<VillagerView>::empty());
            assert forall|a: int, b: int|
                0 <= a < b < r@.living.len() implies r@.living[a].label
                != r@.living[b].label by {
                assert(ids@[a] != ids@[b]);
            }
            assert forall|k: int|
                0 <= k < r@.living.len() implies 1 <= r@.living[k].label && r@.living[k].label
                    as int <= r@.living.len() by {
                assert(r@.living[k].label == ids@[k]);
                assert(1 <= ids@[k] <= total);
            }
            assert forall|lab: u8|
                1 <= lab && lab as int <= r@.living.len() implies seq_has_label(
                r@.living,
                lab,
            ) by {
                assert(ids@.contains(lab));
                let j = choose|j: int| 0 <= j < ids@.len() && ids@[j] == lab;
                assert(r@.living[j].label == lab);
            }
        }
        r
    }

    /// Constructs a village with a pre-determined roster: the deterministic
    /// construction path, bypassing the random labeling of `new`.
    pub fn new_deterministic(villagers: Vec<LivingVillager>) -> (r: Self)
        requires
            distinct_labels(villagers@.map_values(|v: LivingVillager| v@)),
        ensures
            r@.wf(),
            r@.living == villagers@.map_values(|v: LivingVillager| v@),
            r@.dead == Seq::<VillagerView>::empty(),
            r@.status == VillageStatus::Running,
            r@.layout == r@.living,
    {
        let layout = clone_roster(&villagers);
        let r = Self {
            living_villagers: villagers,
            dead_villagers: Vec::new(),
            status: VillageStatus::Running,
            layout,
        };
        proof {
            assert(r@.dead =~= Seq::<VillagerView>::empty());
        }
        r
    }

    pub fn layout(&self) -> (r: Vec<LivingVillager>)
        ensures
            r@.map_values(|v: LivingVillager| v@) == self@.layout,
    {
        clone_roster(&self.layout)
    }

    pub fn status(&self) -> (r: VillageStatus)
        ensures
            r == self@.status,
    {
        self.status
    }

    /// Checks whether a villager with this label exists, dead or alive.
    pub fn villager_exists(&self, label: u8) -> (r: bool)
        ensures
            r == self@.has_villager(label),
    {
        let mut i: usize = 0;
        while i < self.dead_villagers.len()
            invariant
                0 <= i <= self.dead_villagers.len(),
                forall|j: int| 0 <= j < i ==> self@.dead[j].label != label,
            decreases self.dead_villagers.len() - i,
        {
            if self.dead_villagers[i].has_label(label) {
                proof {
                    assert(self@.dead[i as int].label == label);
                }
                return true;
            }
            i = i + 1;
        }
        let mut i: usize = 0;
        while i < self.living_villagers.len()
            invariant
                0 <= i <= self.living_villagers.len(),
                forall|j: int| 0 <= j < i ==> self@.living[j].label != label,
                !seq_has_label(self@.dead, label),
            decreases self.living_villagers.len() - i,
        {
            if self.living_villagers[i].has_label(label) {
                proof {
                    assert(self@.living[i as int].label == label);
                }
                return true;
            }
            i = i + 1;
        }
        false
    }

    /// Attempts to get the living villager with the provided label.
    pub fn living_villager(&self, label: u8) -> (r: Option<&LivingVillager>)
        requires
            self@.wf(),
        ensures
            match r {
                Some(v) => {
                    &&& seq_has_label(self@.living, label)
                    &&& v@.label == label
                    &&& v@ == self@.living[label_index(self@.living, label)]
                },
                None => !seq_has_label(self@.living, label),
            },
    {
        let mut i: usize = 0;
        while i < self.living_villagers.len()
            invariant
                0 <= i <= self.living_villagers.len(),
                forall|j: int| 0 <= j < i ==> self@.living[j].label != label,
                self@.wf(),
            decreases self.living_villagers.len() - i,
        {
            if self.living_villagers[i].has_label(label) {
                proof {
                    lemma_label_index_unique(self@.living, label, i as int);
                }
                return Some(&self.living_villagers[i]);
            }
            i = i + 1;
        }
        None
    }

    /// Attempts to get the dead villager with the provided label.
    pub fn dead_villager(&self, label: u8) -> (r: Option<&DeadVillager>)
        requires
            self@.wf(),
        ensures
            match r {
                Some(v) => {
                    &&& seq_has_label(self@.dead, label)
                    &&& v@.label == label
                    &&& v@ == self@.dead[label_index(self@.dead, label)]
                },
                None => !seq_has_label(self@.dead, label),
            },
    {
        let mut i: usize = 0;
        while i < self.dead_villagers.len()
            invariant
                0 <= i <= self.dead_villagers.len(),
                forall|j: int| 0 <= j < i ==> self@.dead[j].label != label,
                self@.wf(),
            decreases self.dead_villagers.len() - i,
        {
            if self.dead_villagers[i].has_label(label) {
                proof {
                    lemma_label_index_unique(self@.dead, label, i as int);
                }
                return Some(&self.dead_villagers[i]);
            }
            i = i + 1;
        }
        None
    }

    /// Attempts to get the kind of the dead or alive villager with the
    /// provided label; the living roster is consulted first.
    pub fn villager_type(&self, label: u8) -> (r: Result<VillagerType, VillageError>)
        requires
            self@.wf(),
        ensures
            seq_has_label(self@.living, label) ==> r == Ok::<VillagerType, VillageError>(
                kind_at(self@.living, label),
            ),
            !seq_has_label(self@.living, label) && seq_has_label(self@.dead, label) ==> r
                == Ok::<VillagerType, VillageError>(kind_at(self@.dead, label)),
            !self@.has_villager(label) ==> r == Err::<VillagerType, VillageError>(
                VillageError::NoSuchVillager(label),
            ),
    {
        match self.living_villager(label) {
            Some(v) => Ok(v.kind()),
            None => match self.dead_villager(label) {
                Some(v) => Ok(v.kind()),
                None => Err(VillageError::NoSuchVillager(label)),
            },
        }
    }

    /// Attempts to kill the villager with the provided label: removes it
    /// from the living roster and appends it, dead, to the dead roster.
    /// Fails, changing nothing, when no living villager carries the label.
    pub fn kill_villager(&mut self, label: u8) -> (r: Result<(), VillageError>)
        requires
            old(self)@.wf(),
        ensures
            final(self)@.wf(),
            final(self)@ == spec_kill(old(self)@, label),
            seq_has_label(old(self)@.living, label) ==> r == Ok::<(), VillageError>(()),
            !seq_has_label(old(self)@.living, label) ==> r == Err::<(), VillageError>(
                VillageError::NoSuchVillager(label),
            ) && final(self)@ == old(self)@,
    {
        let ghost pre = self@;
        let position = match self.living_position(label) {
            Some(position) => position,
            None => {
                return Err(VillageError::NoSuchVillager(label));
            },
        };
        proof {
            lemma_label_index_unique(pre.living, label, position as int);
        }
        let villager = self.living_villagers.remove(position);
        self.dead_villagers.push(villager.kill());
        proof {
            assert(self@.living =~= pre.living.remove(position as int));
            assert(self@.dead =~= pre.dead.push(pre.living[position as int]));
            assert(self@ =~= spec_kill(pre, label));
            lemma_kill_preserves_wf(pre, label);
        }
        Ok(())
    }

    /// Checks whether murderers or villagers have won and updates the status
    /// accordingly: villagers win when no living murderer remains, murderers
    /// win when the living are nonempty and all murderers, and otherwise the
    /// game goes on. A status that has already left `Running` is terminal
    /// and never changes again.
    pub fn update_status(&mut self)
        ensures
            final(self)@.living == old(self)@.living,
            final(self)@.dead == old(self)@.dead,
            final(self)@.layout == old(self)@.layout,
            old(self)@.status != VillageStatus::Running
                ==> final(self)@.status == old(self)@.status,
            old(self)@.status == VillageStatus::Running ==> {
                &&& final(self)@.status == VillageStatus::VillagersWon <==> !has_murderer(
                    old(self)@.living,
                )
                &&& final(self)@.status == VillageStatus::MurdersWon
                    <==> old(self)@.living.len() > 0 && all_murderers(old(self)@.living)
                &&& final(self)@.status == VillageStatus::Running <==> has_murderer(
                    old(self)@.living,
                ) && !all_murderers(old(self)@.living)
            },
    {
        // A finished game stays finished.
        if self.status != VillageStatus::Running {
            return;
        }
        let ghost living = self@.living;
        let mut murderers: usize = 0;
        let mut i: usize = 0;
        while i < self.living_villagers.len()
            invariant
                0 <= i <= self.living_villagers.len(),
                self@.living == living,
                murderers == murderer_count(living.take(i as int)),
                murderers <= i,
            decreases self.living_villagers.len() - i,
        {
            if self.living_villagers[i].kind() == VillagerType::Murderer {
                murderers = murderers + 1;
            }
            proof {
                assert(living.take(i + 1).drop_last() =~= living.take(i as int));
                assert(living.take(i + 1).last() == living[i as int]);
            }
            i = i + 1;
        }
        proof {
            assert(living.take(living.len() as int) =~= living);
            lemma_murderer_count_characterises(living);
        }
        if murderers == 0 {
            self.status = VillageStatus::VillagersWon;
        } else if murderers == self.living_villagers.len() {
            self.status = VillageStatus::MurdersWon;
        }
    }

    /// Used to mutate living villagers in place, particularly updating
    /// kinds that carry state.
    pub fn living_villager_mut(&mut self, label: u8) -> (r: Option<&mut LivingVillager>)
        requires
            old(self)@.wf(),
        ensures
            match r {
                Some(v) => {
                    &&& seq_has_label(old(self)@.living, label)
                    &&& (*v)@ == old(self)@.living[label_index(old(self)@.living, label)]
                    &&& final(self)@.living.len() == old(self)@.living.len()
                    &&& final(self)@.living[label_index(old(self)@.living, label)]
                        == (*final(v))@
                    &&& forall|j: int|
                        0 <= j < old(self)@.living.len() && j != label_index(
                            old(self)@.living,
                            label,
                        ) ==> final(self)@.living[j] == old(self)@.living[j]
                    &&& final(self)@.dead == old(self)@.dead
                    &&& final(self)@.status == old(self)@.status
                    &&& final(self)@.layout == old(self)@.layout
                },
                None => {
                    &&& !seq_has_label(old(self)@.living, label)
                    &&& final(self)@ == old(self)@
                },
            },
    {
        let position = match self.living_position(label) {
            Some(position) => position,
            None => {
                return None;
            },
        };
        proof {
            lemma_label_index_unique(self@.living, label, position as int);
        }
        Some(&mut self.living_villagers[position])
    }

    /// Walks the labels upward from `from` and hands back the nearest one
    /// naming a living non-murderer villager, if there is one.
    fn nearest_living_target_above(&self, from: u8) -> (r: Option<u8>)
        requires
            self@.wf(),
        ensures
            r == nearest_target_above(self@.living, from),
    {
        let mut l = from;
        while l < 255
            invariant
                from <= l <= 255,
                self@.wf(),
                nearest_target_above(self@.living, from) == nearest_target_above(
                    self@.living,
                    l,
                ),
            decreases 255 - l,
        {
            let ghost l0 = l;
            l = l + 1;
            match self.living_villager(l) {
                Some(v) => {
                    if v.kind() != VillagerType::Murderer {
                        proof {
                            assert(kind_at(self@.living, l) == v@.kind);
                            assert(is_night_target(self@.living, l));
                        }
                        return Some(l);
                    }
                    proof {
                        assert(kind_at(self@.living, l) == v@.kind);
                        assert(!is_night_target(self@.living, l));
                    }
                },
                None => {
                    proof {
                        assert(!is_night_target(self@.living, l));
                    }
                },
            }
        }
        None
    }

    /// Walks the labels downward from `from` (stopping at 1, the lowest
    /// label) and hands back the nearest one naming a living non-murderer
    /// villager, if there is one.
    fn nearest_living_target_below(&self, from: u8) -> (r: Option<u8>)
        requires
            self@.wf(),
        ensures
            r == nearest_target_below(self@.living, from),
    {
        let mut l = from;
        while l > 1
            invariant
                l <= from,
                self@.wf(),
                nearest_target_below(self@.living, from) == nearest_target_below(
                    self@.living,
                    l,
                ),
            decreases l,
        {
            l = l - 1;
            match self.living_villager(l) {
                Some(v) => {
                    if v.kind() != VillagerType::Murderer {
                        proof {
                            assert(kind_at(self@.living, l) == v@.kind);
                            assert(is_night_target(self@.living, l));
                        }
                        return Some(l);
                    }
                    proof {
                        assert(kind_at(self@.living, l) == v@.kind);
                        assert(!is_night_target(self@.living, l));
                    }
                },
                None => {
                    proof {
                        assert(!is_night_target(self@.living, l));
                    }
                },
            }
        }
        None
    }

    /// One murderer's move: search outward from `murderer` in the chosen
    /// direction for the nearest living non-murderer villager. A strong
    /// target with unused resistance spends it and survives; any other
    /// target dies. When the chosen direction holds no target, the move is
    /// wasted.
    pub fn murderer_strike(&mut self, murderer: u8, above: bool)
        requires
            old(self)@.wf(),
        ensures
            final(self)@.wf(),
            night_moves(old(self)@, final(self)@),
            final(self)@ == spec_strike(old(self)@, murderer, above),
    {
        let ghost pre = self@;
        let found = if above {
            self.nearest_living_target_above(murderer)
        } else {
            self.nearest_living_target_below(murderer)
        };
        let to_kill = match found {
            Some(label) => label,
            None => {
                proof {
                    lemma_night_moves_refl(pre);
                }
                return;
            },
        };
        proof {
            if above {
                lemma_nearest_above_characterises(pre.living, murderer);
            } else {
                lemma_nearest_below_characterises(pre.living, murderer);
            }
            assert(is_night_target(pre.living, to_kill));
        }
        let is_unused_strong = match self.villager_type(to_kill) {
            Ok(VillagerType::Strong(true)) => true,
            _ => false,
        };
        if is_unused_strong {
            match self.living_villager_mut(to_kill) {
                Some(v) => {
                    v.set_kind(VillagerType::Strong(false));
                },
                None => {
                    proof {
                        assert(false);
                    }
                },
            }
            proof {
                assert(self@.living =~= pre.living.update(
                    label_index(pre.living, to_kill),
                    VillagerView { kind: VillagerType::Strong(false), label: to_kill },
                ));
                assert(self@ =~= spec_spend_resistance(pre, to_kill));
                lemma_spend_is_night_move(pre, to_kill);
            }
        } else {
            let _ = self.kill_villager(to_kill);
            proof {
                lemma_kill_is_night_move(pre, to_kill);
            }
        }
    }

    /// Has each living murderer attempt one strike, in a random direction,
    /// against the roster as the previous strikes left it, and then updates
    /// the village's status. The rosters that come out are exactly a
    /// `night_fold` of the snapshot of living murderers over some sequence
    /// of drawn directions; only the directions are left open, since they
    /// are the coins'.
    pub fn run_night(&mut self)
        requires
            old(self)@.wf(),
        ensures
            final(self)@.wf(),
            night_moves(old(self)@, VillageView { status: old(self)@.status, ..final(self)@ }),
            exists|dirs: Seq<bool>|
                {
                    &&& dirs.len() == murderer_labels(old(self)@.living).len()
                    &&& (VillageView { status: old(self)@.status, ..final(self)@ })
                        == #[trigger] night_fold(
                        old(self)@,
                        murderer_labels(old(self)@.living),
                        dirs,
                    )
                },
            old(self)@.status != VillageStatus::Running
                ==> final(self)@.status == old(self)@.status,
            old(self)@.status == VillageStatus::Running ==> {
                &&& final(self)@.status == VillageStatus::VillagersWon <==> !has_murderer(
                    final(self)@.living,
                )
                &&& final(self)@.status == VillageStatus::MurdersWon
                    <==> final(self)@.living.len() > 0 && all_murderers(final(self)@.living)
                &&& final(self)@.status == VillageStatus::Running <==> has_murderer(
                    final(self)@.living,
                ) && !all_murderers(final(self)@.living)
            },
    {
        let ghost pre = self@;
        // snapshot the living murderers, so that one converted or killed
        // mid-resolution neither skips nor repeats a turn
        let mut murderers: Vec<u8> = Vec::new();
        let mut i: usize = 0;
        while i < self.living_villagers.len()
            invariant
                0 <= i <= self.living_villagers.len(),
                self@ == pre,
                murderers@ == murderer_labels(pre.living.take(i as int)),
            decreases self.living_villagers.len() - i,
        {
            if self.living_villagers[i].kind() == VillagerType::Murderer {
                murderers.push(self.living_villagers[i].label());
            }
            proof {
                assert(pre.living.take(i + 1).drop_last() =~= pre.living.take(i as int));
                assert(pre.living.take(i + 1).last() == pre.living[i as int]);
            }
            i = i + 1;
        }
        let ghost mlabels = murderer_labels(pre.living);
        proof {
            assert(pre.living.take(pre.living.len() as int) =~= pre.living);
            lemma_night_moves_refl(pre);
        }
        let ghost mut dirs: Seq<bool> = Seq::empty();
        let mut i: usize = 0;
        while i < murderers.len()
            invariant
                self@.wf(),
                pre.wf(),
                night_moves(pre, self@),
                murderers@ == mlabels,
                0 <= i <= mlabels.len(),
                dirs.len() == i,
                self@ == night_fold(pre, mlabels.take(i as int), dirs),
            decreases murderers.len() - i,
        {
            let above = coin_flip();
            let ghost mid = self@;
            self.murderer_strike(murderers[i], above);
            proof {
                lemma_night_moves_trans(pre, mid, self@);
                let prev_dirs = dirs;
                dirs = dirs.push(above);
                assert(mlabels.take(i + 1).drop_last() =~= mlabels.take(i as int));
                assert(mlabels.take(i + 1).last() == mlabels[i as int]);
                assert(dirs.drop_last() =~= prev_dirs);
                assert(self@ == night_fold(pre, mlabels.take(i + 1), dirs));
            }
            i = i + 1;
        }
        let ghost struck = self@;
        self.update_status();
        proof {
            assert(mlabels.take(mlabels.len() as int) =~= mlabels);
            assert((VillageView { status: pre.status, ..self@ }) =~= struck);
            assert(dirs.len() == murderer_labels(pre.living).len() && (VillageView {
                status: pre.status,
                ..self@
            }) == night_fold(pre, murderer_labels(pre.living), dirs));
        }
    }

    /// The position of the first living villager carrying `label`, if any.
    fn living_position(&self, label: u8) -> (r: Option<usize>)
        ensures
            match r {
                Some(i) => {
                    &&& 0 <= i < self@.living.len()
                    &&& self@.living[i as int].label == label
                    &&& forall|j: int| 0 <= j < i ==> self@.living[j].label != label
                },
                None => !seq_has_label(self@.living, label),
            },
    {
        let mut i: usize = 0;
        while i < self.living_villagers.len()
            invariant
                0 <= i <= self.living_villagers.len(),
                forall|j: int| 0 <= j < i ==> self@.living[j].label != label,
            decreases self.living_villagers.len() - i,
        {
            if self.living_villagers[i].has_label(label) {
                return Some(i);
            }
            i = i + 1;
        }
        None
    }
}

/// True if a living, non-murderer villager carries `l`: murderers never
/// target each other.
pub open spec fn is_night_target(living: Seq<VillagerView>, l: u8) -> bool {
    seq_has_label(living, l) && kind_at(living, l) != VillagerType::Murderer
}

/// The nearest label strictly above `from` that names a living non-murderer
/// villager, if any.
pub open spec fn nearest_target_above(living: Seq<VillagerView>, from: u8) -> Option<u8>
    decreases 255 - from,
{
    if from >= 255 {
        None
    } else if is_night_target(living, (from + 1) as u8) {
        Some((from + 1) as u8)
    } else {
        nearest_target_above(living, (from + 1) as u8)
    }
}

/// The nearest label strictly below `from` (labels start at 1) that names a
/// living non-murderer villager, if any.
pub open spec fn nearest_target_below(living: Seq<VillagerView>, from: u8) -> Option<u8>
    decreases from,
{
    if from <= 1 {
        None
    } else if is_night_target(living, (from - 1) as u8) {
        Some((from - 1) as u8)
    } else {
        nearest_target_below(living, (from - 1) as u8)
    }
}

/// The label a murderer at `from` goes after when it searches in the chosen
/// direction.
pub open spec fn nearest_target(living: Seq<VillagerView>, from: u8, above: bool) -> Option<u8> {
    if above {
        nearest_target_above(living, from)
    } else {
        nearest_target_below(living, from)
    }
}

/// The labels of the living murderers, in roster order: the snapshot that
/// night resolution works through, fixed before any strike.
pub open spec fn murderer_labels(s: Seq<VillagerView>) -> Seq<u8>
    decreases s.len(),
{
    if s.len() == 0 {
        Seq::empty()
    } else if s.last().kind == VillagerType::Murderer {
        murderer_labels(s.drop_last()).push(s.last().label)
    } else {
        murderer_labels(s.drop_last())
    }
}

/// What one murderer's strike does to the village, given the direction its
/// coin chose: the nearest living non-murderer in that direction spends an
/// unused strong resistance or dies; with no target there, the move is
/// wasted and nothing changes.
pub open spec fn spec_strike(v: VillageView, murderer: u8, above: bool) -> VillageView {
    match nearest_target(v.living, murderer, above) {
        None => v,
        Some(t) => if kind_at(v.living, t) == VillagerType::Strong(true) {
            spec_spend_resistance(v, t)
        } else {
            spec_kill(v, t)
        },
    }
}

/// The village after the murderers carrying `labels` have struck one after
/// the other, in order, each in the direction its own coin chose.
pub open spec fn night_fold(v: VillageView, labels: Seq<u8>, dirs: Seq<bool>) -> VillageView
    decreases labels.len(),
{
    if labels.len() == 0 {
        v
    } else {
        spec_strike(
            night_fold(v, labels.drop_last(), dirs.drop_last()),
            labels.last(),
            dirs.last(),
        )
    }
}

/// What the search above finds is the nearest target, and a miss means
/// there is none in that direction.
pub proof fn lemma_nearest_above_characterises(living: Seq<VillagerView>, from: u8)
    ensures
        match nearest_target_above(living, from) {
            Some(t) => from < t && is_night_target(living, t) && (forall|k: u8|
                from < k < t ==> !is_night_target(living, k)),
            None => forall|k: u8| from < k ==> !is_night_target(living, k),
        },
    decreases 255 - from,
{
    if from >= 255 {
    } else if is_night_target(living, (from + 1) as u8) {
    } else {
        lemma_nearest_above_characterises(living, (from + 1) as u8);
    }
}

/// What the search below finds is the nearest target, and a miss means
/// there is none in that direction.
pub proof fn lemma_nearest_below_characterises(living: Seq<VillagerView>, from: u8)
    ensures
        match nearest_target_below(living, from) {
            Some(t) => 0 < t < from && is_night_target(living, t) && (forall|k: u8|
                t < k < from ==> !is_night_target(living, k)),
            None => forall|k: u8| 0 < k < from ==> !is_night_target(living, k),
        },
    decreases from,
{
    if from <= 1 {
    } else if is_night_target(living, (from - 1) as u8) {
    } else {
        lemma_nearest_below_characterises(living, (from - 1) as u8);
    }
}

/// The effect on the village model of a strong villager spending its
/// resistance: the entry carrying `label` changes kind from `Strong(true)`
/// to `Strong(false)` and stays alive.
pub open spec fn spec_spend_resistance(v: VillageView, label: u8) -> VillageView {
    VillageView {
        living: v.living.update(
            label_index(v.living, label),
            VillagerView { kind: VillagerType::Strong(false), label },
        ),
        ..v
    }
}

/// How a single kind may change over one night: it stays as it is, except
/// that an unused strong resistance may be spent.
pub open spec fn kind_evolves(a: VillagerType, b: VillagerType) -> bool {
    b == a || (a == VillagerType::Strong(true) && b == VillagerType::Strong(false))
}

/// What a night's strikes, taken together, may do to the rosters: nobody
/// appears from nowhere, the dead stay dead and keep their order, every
/// victim was a living non-murderer, murderers are untouched, and the only
/// change of kind is a spent resistance. The status is left alone (it is
/// recomputed separately).
pub open spec fn night_moves(pre: VillageView, post: VillageView) -> bool {
    &&& post.status == pre.status
    &&& post.layout == pre.layout
    &&& pre.dead.is_prefix_of(post.dead)
    &&& forall|l: u8|
        seq_has_label(post.living, l) ==> seq_has_label(pre.living, l) && kind_evolves(
            kind_at(pre.living, l),
            kind_at(post.living, l),
        )
    &&& forall|l: u8|
        seq_has_label(pre.living, l) ==> seq_has_label(post.living, l) || seq_has_label(
            post.dead,
            l,
        )
    &&& forall|l: u8|
        seq_has_label(pre.living, l) && kind_at(pre.living, l) == VillagerType::Murderer
            ==> seq_has_label(post.living, l) && kind_at(post.living, l)
            == VillagerType::Murderer
    &&& forall|l: u8|
        seq_has_label(post.dead, l) && !seq_has_label(pre.dead, l) ==> seq_has_label(
            pre.living,
            l,
        ) && kind_at(pre.living, l) != VillagerType::Murderer && kind_evolves(
            kind_at(pre.living, l),
            kind_at(post.dead, l),
        )
}

/// A night in which nothing happened.
pub proof fn lemma_night_moves_refl(v: VillageView)
    ensures
        night_moves(v, v),
{
    assert(v.dead.is_prefix_of(v.dead)) by {
        assert(v.dead =~= v.dead.subrange(0, v.dead.len() as int));
    }
}

/// A label present in a prefix names the same entry in the longer roster.
proof fn lemma_prefix_keeps_label(short: Seq<VillagerView>, long: Seq<VillagerView>, l: u8)
    requires
        short.is_prefix_of(long),
        distinct_labels(long),
        seq_has_label(short, l),
    ensures
        seq_has_label(long, l),
        kind_at(long, l) == kind_at(short, l),
{
    let i = label_index(short, l);
    assert(short[i] == long.subrange(0, short.len() as int)[i]);
    assert(long[i].label == l);
    assert(seq_has_label(long, l));
    lemma_label_index_unique(long, l, i);
    assert(distinct_labels(short)) by {
        assert forall|a: int, b: int|
            0 <= a < b < short.len() implies short[a].label != short[b].label by {
            assert(short[a] == long.subrange(0, short.len() as int)[a]);
            assert(short[b] == long.subrange(0, short.len() as int)[b]);
        }
    }
    lemma_label_index_unique(short, l, i);
}

/// Two nights of strikes, taken together, are still a night of strikes.
pub proof fn lemma_night_moves_trans(a: VillageView, b: VillageView, c: VillageView)
    requires
        a.wf(),
        b.wf(),
        c.wf(),
        night_moves(a, b),
        night_moves(b, c),
    ensures
        night_moves(a, c),
{
    assert(a.dead.is_prefix_of(c.dead)) by {
        assert forall|i: int| 0 <= i < a.dead.len() implies a.dead[i] == c.dead[i] by {
            assert(a.dead[i] == b.dead.subrange(0, a.dead.len() as int)[i]);
            assert(b.dead[i] == c.dead.subrange(0, b.dead.len() as int)[i]);
        }
        assert(a.dead =~= c.dead.subrange(0, a.dead.len() as int));
    }
    assert forall|l: u8|
        seq_has_label(c.living, l) implies seq_has_label(a.living, l) && kind_evolves(
        kind_at(a.living, l),
        kind_at(c.living, l),
    ) by {
        assert(seq_has_label(b.living, l));
    }
    assert forall|l: u8|
        seq_has_label(a.living, l) implies seq_has_label(c.living, l) || seq_has_label(
        c.dead,
        l,
    ) by {
        if seq_has_label(b.living, l) {
        } else {
            assert(seq_has_label(b.dead, l));
            lemma_prefix_keeps_label(b.dead, c.dead, l);
        }
    }
    assert forall|l: u8|
        seq_has_label(c.dead, l) && !seq_has_label(a.dead, l) implies seq_has_label(
        a.living,
        l,
    ) && kind_at(a.living, l) != VillagerType::Murderer && kind_evolves(
        kind_at(a.living, l),
        kind_at(c.dead, l),
    ) by {
        if seq_has_label(b.dead, l) {
            lemma_prefix_keeps_label(b.dead, c.dead, l);
            assert(seq_has_label(a.living, l));
        } else {
            assert(seq_has_label(b.living, l));
            if kind_at(a.living, l) == VillagerType::Murderer {
                assert(kind_at(b.living, l) == VillagerType::Murderer);
                assert(false);
            }
        }
    }
}

/// Killing a living non-murderer is a lawful night move.
pub proof fn lemma_kill_is_night_move(v: VillageView, t: u8)
    requires
        v.wf(),
        seq_has_label(v.living, t),
        kind_at(v.living, t) != VillagerType::Murderer,
    ensures
        night_moves(v, spec_kill(v, t)),
        spec_kill(v, t).wf(),
{
    lemma_kill_preserves_wf(v, t);
    let post = spec_kill(v, t);
    let i = label_index(v.living, t);
    assert(v.dead.is_prefix_of(post.dead)) by {
        assert(v.dead =~= post.dead.subrange(0, v.dead.len() as int));
    }
    assert forall|l: u8|
        seq_has_label(post.living, l) implies seq_has_label(v.living, l) && kind_evolves(
        kind_at(v.living, l),
        kind_at(post.living, l),
    ) by {
        let j = label_index(post.living, l);
        let j0 = if j < i {
            j
        } else {
            j + 1
        };
        assert(post.living[j] == v.living[j0]);
        lemma_label_index_unique(v.living, l, j0);
    }
    assert forall|l: u8|
        seq_has_label(v.living, l) implies seq_has_label(post.living, l) || seq_has_label(
        post.dead,
        l,
    ) by {
        let j = label_index(v.living, l);
        if j == i {
            assert(post.dead[post.dead.len() - 1] == v.living[i]);
            assert(seq_has_label(post.dead, l));
        } else {
            let j1 = if j < i {
                j
            } else {
                j - 1
            };
            assert(post.living[j1] == v.living[j]);
            assert(seq_has_label(post.living, l));
        }
    }
    assert forall|l: u8|
        seq_has_label(v.living, l) && kind_at(v.living, l) == VillagerType::Murderer
        implies seq_has_label(post.living, l) && kind_at(post.living, l)
        == VillagerType::Murderer by {
        let j = label_index(v.living, l);
        lemma_label_index_unique(v.living, t, i);
        assert(j != i);
        let j1 = if j < i {
            j
        } else {
            j - 1
        };
        assert(post.living[j1] == v.living[j]);
        lemma_label_index_unique(post.living, l, j1);
    }
    assert forall|l: u8|
        seq_has_label(post.dead, l) && !seq_has_label(v.dead, l) implies seq_has_label(
        v.living,
        l,
    ) && kind_at(v.living, l) != VillagerType::Murderer && kind_evolves(
        kind_at(v.living, l),
        kind_at(post.dead, l),
    ) by {
        let j = label_index(post.dead, l);
        if j < v.dead.len() {
            assert(post.dead[j] == v.dead[j]);
            assert(seq_has_label(v.dead, l));
        } else {
            assert(post.dead[j] == v.living[i]);
            lemma_label_index_unique(v.living, l, i);
        }
    }
}

/// Spending a strong villager's resistance is a lawful night move.
pub proof fn lemma_spend_is_night_move(v: VillageView, t: u8)
    requires
        v.wf(),
        seq_has_label(v.living, t),
        kind_at(v.living, t) == VillagerType::Strong(true),
    ensures
        night_moves(v, spec_spend_resistance(v, t)),
        spec_spend_resistance(v, t).wf(),
{
    let post = spec_spend_resistance(v, t);
    let i = label_index(v.living, t);
    assert(post.living[i].label == t);
    assert forall|a: int, b: int|
        0 <= a < b < post.living.len() implies post.living[a].label != post.living[b].label by {
        assert(post.living[a].label == v.living[a].label);
        assert(post.living[b].label == v.living[b].label);
    }
    assert forall|a: int, b: int|
        0 <= a < post.living.len() && 0 <= b < post.dead.len() implies post.living[a].label
        != post.dead[b].label by {
        assert(post.living[a].label == v.living[a].label);
    }
    assert(v.dead.is_prefix_of(post.dead)) by {
        assert(v.dead =~= post.dead.subrange(0, v.dead.len() as int));
    }
    assert forall|l: u8|
        seq_has_label(post.living, l) implies seq_has_label(v.living, l) && kind_evolves(
        kind_at(v.living, l),
        kind_at(post.living, l),
    ) by {
        let j = label_index(post.living, l);
        assert(post.living[j].label == v.living[j].label);
        lemma_label_index_unique(v.living, l, j);
        if j == i {
            lemma_label_index_unique(post.living, l, j);
        }
    }
    assert forall|l: u8|
        seq_has_label(v.living, l) implies seq_has_label(post.living, l) || seq_has_label(
        post.dead,
        l,
    ) by {
        let j = label_index(v.living, l);
        assert(post.living[j].label == l);
    }
    assert forall|l: u8|
        seq_has_label(v.living, l) && kind_at(v.living, l) == VillagerType::Murderer
        implies seq_has_label(post.living, l) && kind_at(post.living, l)
        == VillagerType::Murderer by {
        let j = label_index(v.living, l);
        lemma_label_index_unique(v.living, t, i);
        assert(j != i);
        assert(post.living[j] == v.living[j]);
        lemma_label_index_unique(post.living, l, j);
    }
}

/// When labels in `s` are distinct, any index carrying `label` is the index
/// that `label_index` picks.
pub proof fn lemma_label_index_unique(s: Seq<VillagerView>, label: u8, i: int)
    requires
        distinct_labels(s),
        0 <= i < s.len(),
        s[i].label == label,
    ensures
        label_index(s, label) == i,
        seq_has_label(s, label),
{
    assert(seq_has_label(s, label));
    let j = label_index(s, label);
    assert(0 <= j < s.len() && s[j].label == label);
    if i != j {
        if i < j {
            assert(s[i].label != s[j].label);
        } else {
            assert(s[j].label != s[i].label);
        }
    }
}

/// Killing preserves the lifecycle invariant.
pub proof fn lemma_kill_preserves_wf(v: VillageView, label: u8)
    requires
        v.wf(),
    ensures
        spec_kill(v, label).wf(),
{
    if seq_has_label(v.living, label) {
        let i = label_index(v.living, label);
        let post = spec_kill(v, label);
        assert forall|a: int, b: int|
            0 <= a < b < post.living.len() implies post.living[a].label
            != post.living[b].label by {
            assert(post.living[a] == v.living[if a < i { a } else { a + 1 }]);
            assert(post.living[b] == v.living[if b < i { b } else { b + 1 }]);
        }
        assert forall|a: int, b: int|
            0 <= a < post.living.len() && 0 <= b < post.dead.len() implies post.living[a].label
            != post.dead[b].label by {
            assert(post.living[a] == v.living[if a < i { a } else { a + 1 }]);
            if b < v.dead.len() {
                assert(post.dead[b] == v.dead[b]);
            } else {
                assert(post.dead[b] == v.living[i]);
            }
        }
        assert forall|a: int, b: int|
            0 <= a < b < post.dead.len() implies post.dead[a].label != post.dead[b].label by {
            if b < v.dead.len() {
            } else {
                assert(post.dead[b] == v.living[i]);
                assert(post.dead[a] == v.dead[a]);
            }
        }
    }
}

/// The lifecycle partition: in a well-formed village a label names at most
/// one villager, and that villager is living or dead, never both; a
/// villager exists exactly when its label is in exactly one of the two
/// rosters.
pub proof fn lemma_lifecycle_partition(v: VillageView, label: u8)
    requires
        v.wf(),
    ensures
        !(seq_has_label(v.living, label) && seq_has_label(v.dead, label)),
        v.has_villager(label) <==> (seq_has_label(v.living, label) || seq_has_label(
            v.dead,
            label,
        )),
{
    if seq_has_label(v.living, label) && seq_has_label(v.dead, label) {
        let i = label_index(v.living, label);
        let j = label_index(v.dead, label);
        assert(v.living[i].label != v.dead[j].label);
    }
}

/// A strong villager with unused resistance survives its first successful
/// targeting, spending the resistance, and a second successful targeting
/// then kills it.
pub proof fn lemma_strong_resistance(v: VillageView, t: u8)
    requires
        v.wf(),
        seq_has_label(v.living, t),
        kind_at(v.living, t) == VillagerType::Strong(true),
    ensures
        ({
            let once = spec_spend_resistance(v, t);
            let twice = spec_kill(once, t);
            &&& once.wf()
            &&& seq_has_label(once.living, t)
            &&& kind_at(once.living, t) == VillagerType::Strong(false)
            &&& !seq_has_label(twice.living, t)
            &&& seq_has_label(twice.dead, t)
        }),
{
    lemma_spend_is_night_move(v, t);
    let once = spec_spend_resistance(v, t);
    let i = label_index(v.living, t);
    assert(once.living[i].label == t);
    lemma_label_index_unique(once.living, t, i);
    let twice = spec_kill(once, t);
    lemma_kill_preserves_wf(once, t);
    assert(twice.dead.last() == once.living[i]);
    assert(seq_has_label(twice.dead, t));
    if seq_has_label(twice.living, t) {
        let j = label_index(twice.living, t);
        let j0 = if j < i {
            j
        } else {
            j + 1
        };
        assert(twice.living[j] == once.living[j0]);
        assert(once.living[j0].label != once.living[i].label);
    }
}

/// Copies a roster element by element.
fn clone_roster(villagers: &Vec<LivingVillager>) -> (r: Vec<LivingVillager>)
    ensures
        r@.map_values(|v: LivingVillager| v@) == villagers@.map_values(
            |v: LivingVillager| v@,
        ),
{
    let mut r: Vec<LivingVillager> = Vec::new();
    let mut i: usize = 0;
    while i < villagers.len()
        invariant
            0 <= i <= villagers.len(),
            r@.len() == i,
            forall|j: int| 0 <= j < i ==> r@[j]@ == villagers@[j]@,
        decreases villagers.len() - i,
    {
        r.push(villagers[i].clone());
        i = i + 1;
    }
    proof {
        assert(r@.map_values(|v: LivingVillager| v@) =~= villagers@.map_values(
            |v: LivingVillager| v@,
        ));
    }
    r
}

} // verus!
