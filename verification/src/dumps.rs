//! What the dumper reports of dumped vtables: which game-system slots each
//! class overrides, how derived classes differ from a base class, and where
//! network variables keep their state-changed hook.
use vstd::prelude::*;

use crate::error::S2Error;
use crate::s2binlib::S2BinLib;
use crate::text::{contains_chars, str_contains};
use crate::vsort::{name_le, ref_views, sort_views_by_name};
use crate::vtable::{base_view, bases_view, vtable_view, vtables_view_of, BaseClassInfo, BaseView, VTableInfo, VTableView};
use crate::vtdump::children_rec;

verus! {

broadcast use vstd::string::group_string_axioms;

/// The (vtable, slot) pairs examined for game-system overrides, from base
/// `b` of vtable `a` on: for each base whose name contains `IGameSystem`
/// of each vtable with at least `size` slots, its first `size` slots.
pub open spec fn gs_pairs_from(vts: Seq<VTableInfo>, size: nat, a: int, b: int) -> Seq<(int, int)>
    decreases vts.len() - a, (if 0 <= a < vts.len() { vts[a].bases@.len() - b } else { 0 }),
{
    if a < 0 || a >= vts.len() {
        Seq::empty()
    } else if b < 0 || b >= vts[a].bases@.len() {
        gs_pairs_from(vts, size, a + 1, 0)
    } else if contains_chars(vts[a].bases@[b].class_name@, "IGameSystem"@) && vts[a].methods@.len() >= size {
        slot_pairs(a, size as int, 0) + gs_pairs_from(vts, size, a, b + 1)
    } else {
        gs_pairs_from(vts, size, a, b + 1)
    }
}

/// The pairs (a, i) for the slots `from` to `size` of vtable `a`.
pub open spec fn slot_pairs(a: int, size: int, from: int) -> Seq<(int, int)> {
    Seq::new((size - from) as nat, |k: int| (a, k + from))
}

/// Lists of names as plain values.
pub open spec fn funcs_view(f: Seq<Vec<String>>) -> Seq<Seq<Seq<char>>> {
    f.map_values(|x: Vec<String>| x@.map_values(|s: String| s@))
}

impl S2BinLib {
    /// The overriding classes per slot after examining `pairs` from `funcs`:
    /// a slot whose function is not a stub gets the class name appended; an
    /// error when a stub check fails or the slot is past `funcs`.
    pub open spec fn gs_apply(&self, bin: Seq<char>, vts: Seq<VTableInfo>, pairs: Seq<(int, int)>, funcs: Seq<Seq<Seq<char>>>) -> Result<Seq<Seq<Seq<char>>>, S2Error>
        decreases pairs.len(),
    {
        if pairs.len() == 0 {
            Ok(funcs)
        } else {
            let (a, i) = pairs[0];
            match self.spec_is_nullsub(bin, vts[a].methods@[i]) {
                Err(e) => Err(e),
                Ok(true) => self.gs_apply(bin, vts, pairs.drop_first(), funcs),
                Ok(false) => if i >= funcs.len() {
                    Err(S2Error::ReadOutOfBounds)
                } else {
                    self.gs_apply(bin, vts, pairs.drop_first(), funcs.update(i, funcs[i].push(vts[a].class_name@)))
                },
            }
        }
    }

    /// What `gamesystem_overrides` returns.
    pub open spec fn spec_gamesystem_overrides(&self, bin: Seq<char>, slots: nat) -> Result<Seq<Seq<Seq<char>>>, S2Error> {
        match self.spec_vtable_mangled(bin, crate::vtfind::spec_decorate_name(self.os_view(), "IGameSystem"@)) {
            Err(e) => Err(e),
            Ok(vt) => match self.spec_vfunc_end(bin, vt, 0) {
                Err(e) => Err(e),
                Ok(end) => {
                    let size = ((end / 8) as usize) as nat;
                    if !self.vtables_view().contains_key(bin) {
                        Err(S2Error::VtablesNotDumped)
                    } else {
                        let vts = self.vtables_view()[bin];
                        self.gs_apply(bin, vts, gs_pairs_from(vts, size, 0, 0), Seq::new(slots, |i: int| Seq::<Seq<char>>::empty()))
                    }
                },
            },
        }
    }

    fn gs_record(
        &self,
        binary_name: &str,
        vt: &VTableInfo,
        size: usize,
        funcs: &mut Vec<Vec<String>>,
        Ghost(vts): Ghost<Seq<VTableInfo>>,
        Ghost(a): Ghost<int>,
        Ghost(rest): Ghost<Seq<(int, int)>>,
    ) -> (r: Result<(), S2Error>)
        requires
            self.wf(),
            vt.methods@.len() >= size,
            0 <= a < vts.len(),
            vts[a] == *vt,
        ensures
            self.gs_apply(binary_name@, vts, slot_pairs(a, size as int, 0) + rest, funcs_view(old(funcs)@))
                == match r {
                    Err(e) => Err(e),
                    Ok(_) => self.gs_apply(binary_name@, vts, rest, funcs_view(final(funcs)@)),
                },
    {
        let mut i: usize = 0;
        while i < size
            invariant
                self.wf(),
                i <= size <= vt.methods@.len(),
                0 <= a < vts.len(),
                vts[a] == *vt,
                self.gs_apply(binary_name@, vts, slot_pairs(a, size as int, 0) + rest, funcs_view(old(funcs)@))
                    == self.gs_apply(binary_name@, vts, slot_pairs(a, size as int, i as int) + rest, funcs_view(funcs@)),
            decreases size - i,
        {
            let m = vt.methods[i];
            let ghost before = funcs_view(funcs@);
            let stub = self.is_nullsub_rva(binary_name, m);
            proof {
                assert((slot_pairs(a, size as int, i as int) + rest).drop_first() =~= slot_pairs(a, size as int, i + 1) + rest);
                assert((slot_pairs(a, size as int, i as int) + rest)[0] == (a, i as int));
            }
            match stub {
                Err(e) => {
                    return Err(e);
                },
                Ok(true) => {},
                Ok(false) => {
                    if i >= funcs.len() {
                        return Err(S2Error::ReadOutOfBounds);
                    }
                    let ghost old_i = funcs@[i as int];
                    let mut slot: Vec<String> = Vec::new();
                    std::mem::swap(&mut slot, &mut funcs[i]);
                    assert(slot@ == old_i@);
                    let name = vt.class_name.clone();
                    slot.push(name);
                    proof {
                        assert(slot@.map_values(|s: String| s@) =~= old_i@.map_values(|s: String| s@).push(vt.class_name@));
                    }
                    funcs.set(i, slot);
                    proof {
                        assert(funcs_view(funcs@) =~= before.update(i as int, before[i as int].push(vt.class_name@)));
                    }
                },
            }
            i = i + 1;
        }
        proof {
            assert(slot_pairs(a, size as int, i as int) + rest =~= rest);
        }
        Ok(())
    }

    /// For each of the first `slots` game-system slots, the classes (each
    /// base naming `IGameSystem` of each dumped vtable with at least as many
    /// slots as `IGameSystem` counts once) whose function there is not a
    /// stub.
    pub fn gamesystem_overrides(&self, binary_name: &str, slots: usize) -> (r: Result<Vec<Vec<String>>, S2Error>)
        requires
            self.wf(),
        ensures
            match self.spec_gamesystem_overrides(binary_name@, slots as nat) {
                Err(e) => r == Err::<Vec<Vec<String>>, S2Error>(e),
                Ok(f) => r matches Ok(v) && funcs_view(v@) == f,
            },
    {
        let size = self.get_vtable_vfunc_count(binary_name, "IGameSystem")?;
        let vts = self.get_vtables(binary_name)?;
        let mut funcs: Vec<Vec<String>> = Vec::new();
        let mut k: usize = 0;
        while k < slots
            invariant
                k <= slots,
                funcs@.len() == k,
                forall|j: int| 0 <= j < k ==> (#[trigger] funcs@[j])@.len() == 0,
            decreases slots - k,
        {
            funcs.push(Vec::new());
            k = k + 1;
        }
        let ghost all = gs_pairs_from(vts@, size as nat, 0, 0);
        proof {
            assert forall|j: int| 0 <= j < slots implies #[trigger] funcs_view(funcs@)[j] == Seq::<Seq<char>>::empty() by {
                assert(funcs_view(funcs@)[j] =~= Seq::<Seq<char>>::empty());
            }
            assert(funcs_view(funcs@) =~= Seq::new(slots as nat, |i: int| Seq::<Seq<char>>::empty()));
        }
        let mut a: usize = 0;
        while a < vts.len()
            invariant
                self.wf(),
                a <= vts@.len(),
                self.spec_gamesystem_overrides(binary_name@, slots as nat)
                    == self.gs_apply(binary_name@, vts@, all, Seq::new(slots as nat, |i: int| Seq::<Seq<char>>::empty())),
                self.gs_apply(binary_name@, vts@, all, Seq::new(slots as nat, |i: int| Seq::<Seq<char>>::empty()))
                    == self.gs_apply(binary_name@, vts@, gs_pairs_from(vts@, size as nat, a as int, 0),
                        funcs_view(funcs@)),
            decreases vts@.len() - a,
        {
            let vt = &vts[a];
            let mut b: usize = 0;
            while b < vt.bases.len()
                invariant
                    self.wf(),
                    a < vts@.len(),
                    *vt == vts@[a as int],
                    self.spec_gamesystem_overrides(binary_name@, slots as nat)
                        == self.gs_apply(binary_name@, vts@, all, Seq::new(slots as nat, |i: int| Seq::<Seq<char>>::empty())),
                    b <= vt.bases@.len(),
                    self.gs_apply(binary_name@, vts@, all, Seq::new(slots as nat, |i: int| Seq::<Seq<char>>::empty()))
                        == self.gs_apply(binary_name@, vts@, gs_pairs_from(vts@, size as nat, a as int, b as int),
                            funcs_view(funcs@)),
                decreases vt.bases@.len() - b,
            {
                if str_contains(vt.bases[b].class_name.as_str(), "IGameSystem") && vt.methods.len() >= size {
                    self.gs_record(binary_name, vt, size, &mut funcs, Ghost(vts@), Ghost(a as int),
                        Ghost(gs_pairs_from(vts@, size as nat, a as int, b + 1)))?;
                }
                b = b + 1;
            }
            a = a + 1;
        }
        Ok(funcs)
    }
}


/// How a class's vtable compares with its base's: for each of its slots,
/// and the classes that derive from the base.
#[derive(Debug, Clone)]
pub struct DiffReport {
    /// Slots of the base class.
    pub base_count: usize,
    /// Per base slot, the derived classes whose function there differs.
    pub diffs: Vec<Vec<String>>,
    /// The derived classes with at least as many slots, sorted by name.
    pub children: Vec<String>,
    /// The first 16 bytes of each base function.
    pub bytes: Vec<Vec<u8>>,
    /// The base classes of the base class.
    pub bases: Vec<BaseClassInfo>,
}

/// Index of the first vtable, from `i` on, named `name`.
pub open spec fn first_named(vts: Seq<VTableInfo>, name: Seq<char>, i: int) -> Option<int>
    decreases vts.len() - i,
{
    if i < 0 || i >= vts.len() {
        None
    } else if vts[i].class_name@ == name {
        Some(i)
    } else {
        first_named(vts, name, i + 1)
    }
}

fn find_named(vts: &Vec<VTableInfo>, name: &str) -> (r: Option<usize>)
    ensures
        match r {
            Some(j) => first_named(vts@, name@, 0) == Some(j as int) && j < vts@.len(),
            None => first_named(vts@, name@, 0) is None,
        },
{
    let mut i: usize = 0;
    while i < vts.len()
        invariant
            i <= vts@.len(),
            first_named(vts@, name@, 0) == first_named(vts@, name@, i as int),
        decreases vts@.len() - i,
    {
        if crate::text::str_eq(vts[i].class_name.as_str(), name) {
            return Some(i);
        }
        i = i + 1;
    }
    None
}

/// The derived classes kept for a diff: those with at least `count` slots.
pub open spec fn kept_children(kids: Seq<VTableView>, count: nat) -> Seq<VTableView> {
    kids.filter(|c: VTableView| c.2.len() >= count)
}

/// The kept classes whose slot `i` differs from `base[i]`.
pub open spec fn slot_diff(kids: Seq<VTableView>, base: Seq<u64>, i: int) -> Seq<Seq<char>> {
    kept_children(kids, base.len()).filter(|c: VTableView| c.2[i] != base[i]).map_values(|c: VTableView| c.0)
}

impl S2BinLib {
    /// The first 16 bytes at each address of `methods`, from `k` on.
    pub open spec fn spec_method_bytes(&self, bin: Seq<char>, methods: Seq<u64>, k: int) -> Result<Seq<Seq<u8>>, S2Error>
        decreases methods.len() - k,
    {
        if k < 0 || k >= methods.len() {
            Ok(Seq::empty())
        } else {
            match self.spec_read_rva(bin, methods[k], 16) {
                Err(e) => Err(e),
                Ok(b) => match self.spec_method_bytes(bin, methods, k + 1) {
                    Err(e) => Err(e),
                    Ok(rest) => Ok(seq![b] + rest),
                },
            }
        }
    }

    /// What `vtable_diff` finds: the base vtable (the first named
    /// `base_class`), its derived classes sorted by name, and its functions'
    /// first bytes; or why it fails.
    pub open spec fn spec_diff_parts(&self, bin: Seq<char>, base_class: Seq<char>) -> Result<(VTableView, Seq<VTableView>, Seq<Seq<u8>>), S2Error> {
        if !self.vtables_view().contains_key(bin) {
            Err(S2Error::VtablesNotDumped)
        } else {
            let vts = self.vtables_view()[bin];
            match first_named(vts, base_class, 0) {
                None => Err(S2Error::VtableNotFound),
                Some(j) => match self.spec_method_bytes(bin, vts[j].methods@, 0) {
                    Err(e) => Err(e),
                    Ok(bytes) => Ok((
                        vtable_view(vts[j]),
                        sort_views_by_name(vtables_view_of(children_rec(vts, base_class, Set::empty()).0.map_values(|k: int| vts[k]))),
                        bytes,
                    )),
                },
            }
        }
    }

    /// How the vtables deriving from `base_class` differ from it, slot by
    /// slot.
    pub fn vtable_diff(&self, binary_name: &str, base_class: &str) -> (r: Result<DiffReport, S2Error>)
        requires
            self.wf(),
        ensures
            match self.spec_diff_parts(binary_name@, base_class@) {
                Err(e) => r == Err::<DiffReport, S2Error>(e),
                Ok((base, kids, bytes)) => r matches Ok(d)
                    && d.base_count == base.2.len()
                    && d.bytes@.map_values(|b: Vec<u8>| b@) == bytes
                    && d.children@.map_values(|s: String| s@) == kept_children(kids, base.2.len()).map_values(|c: VTableView| c.0)
                    && d.diffs@.len() == base.2.len()
                    && (forall|i: int| 0 <= i < base.2.len() ==> (#[trigger] d.diffs@[i])@.map_values(|s: String| s@) == slot_diff(kids, base.2, i))
                    && bases_view(d.bases@) == base.3,
            },
    {
        let vts = self.get_vtables(binary_name)?;
        let j = match find_named(vts, base_class) {
            Some(j) => j,
            None => {
                return Err(S2Error::VtableNotFound);
            },
        };
        let base = &vts[j];
        let base_count = base.methods.len();
        let mut bytes: Vec<Vec<u8>> = Vec::new();
        let mut k: usize = 0;
        while k < base_count
            invariant
                self.wf(),
                base_count == base.methods@.len(),
                k <= base_count,
                self.vtables_view().contains_key(binary_name@),
                vts@ == self.vtables_view()[binary_name@],
                first_named(vts@, base_class@, 0) == Some(j as int),
                j < vts@.len(),
                *base == vts@[j as int],
                self.spec_method_bytes(binary_name@, base.methods@, 0) matches Ok(all) ==> (self.spec_method_bytes(binary_name@, base.methods@, k as int) matches Ok(rest) && all == bytes@.map_values(|b: Vec<u8>| b@) + rest),
                self.spec_method_bytes(binary_name@, base.methods@, 0) is Err ==> self.spec_method_bytes(binary_name@, base.methods@, 0) == self.spec_method_bytes(binary_name@, base.methods@, k as int),
            decreases base_count - k,
        {
            let ghost before = bytes@.map_values(|b: Vec<u8>| b@);
            let b = self.read_by_rva(binary_name, base.methods[k], 16)?;
            let copy = crate::bytes::copy_bytes(b);
            bytes.push(copy);
            proof {
                assert(bytes@.map_values(|b: Vec<u8>| b@) =~= before.push(b@));
                if let Ok(rest) = self.spec_method_bytes(binary_name@, base.methods@, k + 1) {
                    assert(before + (seq![b@] + rest) =~= bytes@.map_values(|b: Vec<u8>| b@) + rest);
                }
            }
            k = k + 1;
        }
        proof {
            assert(bytes@.map_values(|b: Vec<u8>| b@) + Seq::<Seq<u8>>::empty() =~= bytes@.map_values(|b: Vec<u8>| b@));
        }
        let kids = self.get_all_vtable_children(binary_name, base_class)?;
        let ghost kv = ref_views(kids@);
        let mut children: Vec<String> = Vec::new();
        let mut diffs: Vec<Vec<String>> = Vec::new();
        let mut i: usize = 0;
        while i < base_count
            invariant
                i <= base_count,
                diffs@.len() == i,
                forall|x: int| 0 <= x < i ==> (#[trigger] diffs@[x])@.len() == 0,
            decreases base_count - i,
        {
            diffs.push(Vec::new());
            i = i + 1;
        }
        let mut c: usize = 0;
        while c < kids.len()
            invariant
                base_count == base.methods@.len(),
                c <= kids@.len(),
                kv == ref_views(kids@),
                children@.map_values(|s: String| s@) == kept_children(kv.take(c as int), base_count as nat).map_values(|x: VTableView| x.0),
                diffs@.len() == base_count,
                forall|x: int| 0 <= x < base_count ==> (#[trigger] diffs@[x])@.map_values(|s: String| s@) == slot_diff(kv.take(c as int), base.methods@, x),
            decreases kids@.len() - c,
        {
            let vt = kids[c];
            proof {
                assert(kv.take(c + 1) =~= kv.take(c as int).push(vtable_view(*vt)));
                assert(kv.take(c as int).push(vtable_view(*vt)).filter(|x: VTableView| x.2.len() >= base_count as nat)
                    =~= if vt.methods@.len() >= base_count {
                        kept_children(kv.take(c as int), base_count as nat).push(vtable_view(*vt))
                    } else {
                        kept_children(kv.take(c as int), base_count as nat)
                    }) by {
                    kv.take(c as int).lemma_filter_push(vtable_view(*vt), |x: VTableView| x.2.len() >= base_count as nat);
                }
            }
            if vt.methods.len() >= base_count {
                let ghost cb = children@.map_values(|s: String| s@);
                children.push(vt.class_name.clone());
                proof {
                    assert(children@.map_values(|s: String| s@) =~= cb.push(vt.class_name@));
                }
                let mut x: usize = 0;
                while x < base_count
                    invariant
                        base_count == base.methods@.len(),
                        vt.methods@.len() >= base_count,
                        kept_children(kv.take(c + 1), base_count as nat)
                            == kept_children(kv.take(c as int), base_count as nat).push(vtable_view(*vt)),
                        x <= base_count,
                        diffs@.len() == base_count,
                        forall|y: int| x <= y < base_count ==> (#[trigger] diffs@[y])@.map_values(|s: String| s@) == slot_diff(kv.take(c as int), base.methods@, y),
                        forall|y: int| 0 <= y < x ==> (#[trigger] diffs@[y])@.map_values(|s: String| s@) == slot_diff(kv.take(c + 1), base.methods@, y),
                    decreases base_count - x,
                {
                    proof {
                        let kept = kept_children(kv.take(c as int), base_count as nat);
                        let p = |z: VTableView| z.2[x as int] != base.methods@[x as int];
                        kept.lemma_filter_push(vtable_view(*vt), p);
                        let f = kept.filter(p);
                        if p(vtable_view(*vt)) {
                            assert(f.push(vtable_view(*vt)).map_values(|z: VTableView| z.0) =~= f.map_values(|z: VTableView| z.0).push(vt.class_name@));
                        }
                    }
                    if vt.methods[x] != base.methods[x] {
                        let ghost old_x = diffs@[x as int];
                        let mut slot: Vec<String> = Vec::new();
                        std::mem::swap(&mut slot, &mut diffs[x]);
                        assert(slot@ == old_x@);
                        slot.push(vt.class_name.clone());
                        proof {
                            assert(slot@.map_values(|s: String| s@) =~= old_x@.map_values(|s: String| s@).push(vt.class_name@));
                        }
                        diffs.set(x, slot);
                    }
                    proof {
                        assert(slot_diff(kv.take(c + 1), base.methods@, x as int)
                            =~= if vt.methods@[x as int] != base.methods@[x as int] {
                                slot_diff(kv.take(c as int), base.methods@, x as int).push(vt.class_name@)
                            } else {
                                slot_diff(kv.take(c as int), base.methods@, x as int)
                            });
                    }
                    x = x + 1;
                }
            } else {
                proof {
                    assert forall|y: int| 0 <= y < base_count implies #[trigger] slot_diff(kv.take(c + 1), base.methods@, y)
                        == slot_diff(kv.take(c as int), base.methods@, y) by {}
                }
            }
            c = c + 1;
        }
        proof {
            assert(kv.take(c as int) =~= kv);
        }
        Ok(DiffReport { base_count, diffs, children, bytes, bases: crate::itanium::copy_bases(&base.bases) })
    }
}


/// How an entity class's vtable compares with the base it is diffed
/// against: `=` where the slot holds the base's function, `!` where it
/// differs, `?` past the base's slots.
#[derive(Debug, Clone)]
pub struct EntityDiff {
    pub class_name: String,
    pub method_count: usize,
    pub base_name: String,
    pub marks: Vec<u8>,
}

/// The marks of `methods` against `base`.
pub open spec fn slot_marks(methods: Seq<u64>, base: Seq<u64>) -> Seq<u8> {
    Seq::new(methods.len(), |i: int| if i < base.len() { if methods[i] == base[i] { 0x3D } else { 0x21 } } else { 0x3F })
}

/// The entity diff as plain values.
pub open spec fn entity_view(e: EntityDiff) -> (Seq<char>, usize, Seq<char>, Seq<u8>) {
    (e.class_name@, e.method_count, e.base_name@, e.marks@)
}

/// The base an entity class is diffed against, from base `b` of its list
/// on: the first base not chosen before that names a vtable with at least
/// `count` slots becomes the choice (and is remembered); `chosen` otherwise
/// stays.
pub open spec fn choose_base(vts: Seq<VTableInfo>, bases: Seq<BaseClassInfo>, count: nat, known: Map<Seq<char>, int>, chosen: Seq<char>, b: int) -> (Seq<char>, Map<Seq<char>, int>)
    decreases bases.len() - b,
{
    if b < 0 || b >= bases.len() {
        (chosen, known)
    } else {
        let name = bases[b].class_name@;
        if known.contains_key(name) {
            choose_base(vts, bases, count, known, chosen, b + 1)
        } else {
            match first_named(vts, name, 0) {
                None => choose_base(vts, bases, count, known, chosen, b + 1),
                Some(j) => if vts[j].methods@.len() < count {
                    choose_base(vts, bases, count, known, chosen, b + 1)
                } else {
                    (name, known.insert(name, j))
                },
            }
        }
    }
}

/// The entity diffs of the vtables from `a` on: each vtable with a base
/// whose name contains `class` and at least `count` slots, against its
/// chosen base; an error when the chosen base was never remembered.
pub open spec fn entity_diffs_from(vts: Seq<VTableInfo>, class: Seq<char>, count: nat, known: Map<Seq<char>, int>, a: int) -> Result<Seq<(Seq<char>, usize, Seq<char>, Seq<u8>)>, S2Error>
    decreases vts.len() - a,
{
    if a < 0 || a >= vts.len() {
        Ok(Seq::empty())
    } else if crate::vtdump::has_base_containing(vts[a], class) && vts[a].methods@.len() >= count {
        let (fb, k2) = choose_base(vts, vts[a].bases@, count, known, class, 0);
        if !k2.contains_key(fb) {
            Err(S2Error::VtableNotFound)
        } else {
            let base = vts[k2[fb]];
            match entity_diffs_from(vts, class, count, k2, a + 1) {
                Err(e) => Err(e),
                Ok(rest) => Ok(seq![(vts[a].class_name@, vts[a].methods@.len() as usize, base.class_name@, slot_marks(vts[a].methods@, base.methods@))] + rest),
            }
        }
    } else {
        entity_diffs_from(vts, class, count, known, a + 1)
    }
}

fn marks_of(methods: &Vec<u64>, base: &Vec<u64>) -> (r: Vec<u8>)
    ensures
        r@ == slot_marks(methods@, base@),
{
    let mut r: Vec<u8> = Vec::new();
    let mut i: usize = 0;
    while i < methods.len()
        invariant
            i <= methods@.len(),
            r@ == slot_marks(methods@, base@).take(i as int),
        decreases methods@.len() - i,
    {
        let m = if i < base.len() {
            if methods[i] == base[i] { 0x3D } else { 0x21 }
        } else {
            0x3F
        };
        r.push(m);
        proof {
            assert(r@ =~= slot_marks(methods@, base@).take(i + 1));
        }
        i = i + 1;
    }
    proof {
        assert(slot_marks(methods@, base@).take(i as int) =~= slot_marks(methods@, base@));
    }
    r
}

fn choose_base_exec(vts: &Vec<VTableInfo>, bases: &Vec<BaseClassInfo>, count: usize, known: &mut crate::store::NamedStore<usize>, class: &str) -> (r: String)
    requires
        old(known).wf(),
        forall|n: Seq<char>| #[trigger] old(known).view().contains_key(n) ==> old(known).view()[n] < vts@.len(),
    ensures
        final(known).wf(),
        forall|n: Seq<char>| #[trigger] final(known).view().contains_key(n) ==> final(known).view()[n] < vts@.len(),
        (r@, final(known).view().map_values(|j: usize| j as int))
            == choose_base(vts@, bases@, count as nat, old(known).view().map_values(|j: usize| j as int), class@, 0),
{
    let mut b: usize = 0;
    while b < bases.len()
        invariant
            known.wf(),
            known == old(known),
            b <= bases@.len(),
            forall|n: Seq<char>| #[trigger] known.view().contains_key(n) ==> known.view()[n] < vts@.len(),
            choose_base(vts@, bases@, count as nat, old(known).view().map_values(|j: usize| j as int), class@, 0)
                == choose_base(vts@, bases@, count as nat, known.view().map_values(|j: usize| j as int), class@, b as int),
        decreases bases@.len() - b,
    {
        let name = &bases[b].class_name;
        if !known.contains_key(name.as_str()) {
            if let Some(j) = find_named(vts, name.as_str()) {
                if vts[j].methods.len() >= count {
                    let ghost m0 = known.view().map_values(|j: usize| j as int);
                    known.insert(name.clone(), j);
                    proof {
                        assert(known.view().map_values(|j: usize| j as int) =~= m0.insert(name@, j as int));
                    }
                    return name.clone();
                }
            }
        }
        b = b + 1;
    }
    class.to_owned()
}

impl S2BinLib {
    /// What `entity_diffs` returns.
    pub open spec fn spec_entity_diffs(&self, bin: Seq<char>, class: Seq<char>) -> Result<Seq<(Seq<char>, usize, Seq<char>, Seq<u8>)>, S2Error> {
        if !self.vtables_view().contains_key(bin) {
            Err(S2Error::VtablesNotDumped)
        } else {
            match self.spec_vtable_mangled(bin, crate::vtfind::spec_decorate_name(self.os_view(), class)) {
                Err(e) => Err(e),
                Ok(vt) => match self.spec_vfunc_end(bin, vt, 0) {
                    Err(e) => Err(e),
                    Ok(end) => entity_diffs_from(self.vtables_view()[bin], class, ((end / 8) as usize) as nat, Map::empty(), 0),
                },
            }
        }
    }

    /// For each dumped vtable of binary `binary_name` deriving from
    /// `class_name` with at least as many slots, how its slots compare with
    /// those of its chosen base.
    pub fn entity_diffs(&self, binary_name: &str, class_name: &str) -> (r: Result<Vec<EntityDiff>, S2Error>)
        requires
            self.wf(),
        ensures
            match self.spec_entity_diffs(binary_name@, class_name@) {
                Err(e) => r == Err::<Vec<EntityDiff>, S2Error>(e),
                Ok(d) => r matches Ok(v) && v@.map_values(|e: EntityDiff| entity_view(e)) == d,
            },
    {
        let vts = self.get_vtables(binary_name)?;
        let count = self.get_vtable_vfunc_count(binary_name, class_name)?;
        let mut known: crate::store::NamedStore<usize> = crate::store::NamedStore::new();
        let mut out: Vec<EntityDiff> = Vec::new();
        proof {
            assert(known.view().map_values(|j: usize| j as int) =~= Map::<Seq<char>, int>::empty());
        }
        let mut a: usize = 0;
        while a < vts.len()
            invariant
                known.wf(),
                a <= vts@.len(),
                forall|n: Seq<char>| #[trigger] known.view().contains_key(n) ==> known.view()[n] < vts@.len(),
                entity_diffs_from(vts@, class_name@, count as nat, Map::empty(), 0) matches Ok(all) ==>
                    (entity_diffs_from(vts@, class_name@, count as nat, known.view().map_values(|j: usize| j as int), a as int) matches Ok(rest)
                    && all == out@.map_values(|e: EntityDiff| entity_view(e)) + rest),
                entity_diffs_from(vts@, class_name@, count as nat, Map::empty(), 0) is Err ==>
                    entity_diffs_from(vts@, class_name@, count as nat, Map::empty(), 0)
                    == entity_diffs_from(vts@, class_name@, count as nat, known.view().map_values(|j: usize| j as int), a as int),
                self.spec_entity_diffs(binary_name@, class_name@) == entity_diffs_from(vts@, class_name@, count as nat, Map::empty(), 0),
            decreases vts@.len() - a,
        {
            let vt = &vts[a];
            if crate::vtdump::has_base_containing_exec(vt, class_name) && vt.methods.len() >= count {
                let ghost k0 = known.view().map_values(|j: usize| j as int);
                let fb = choose_base_exec(vts, &vt.bases, count, &mut known, class_name);
                let bi = match known.get(fb.as_str()) {
                    Some(j) => *j,
                    None => {
                        return Err(S2Error::VtableNotFound);
                    },
                };
                let base = &vts[bi];
                let e = EntityDiff {
                    class_name: vt.class_name.clone(),
                    method_count: vt.methods.len(),
                    base_name: base.class_name.clone(),
                    marks: marks_of(&vt.methods, &base.methods),
                };
                let ghost before = out@.map_values(|e: EntityDiff| entity_view(e));
                out.push(e);
                proof {
                    assert(out@.map_values(|e: EntityDiff| entity_view(e)) =~= before.push(entity_view(e)));
                    if let Ok(rest) = entity_diffs_from(vts@, class_name@, count as nat, known.view().map_values(|j: usize| j as int), a + 1) {
                        assert(before + (seq![entity_view(e)] + rest) =~= out@.map_values(|e: EntityDiff| entity_view(e)) + rest);
                    }
                }
            }
            a = a + 1;
        }
        proof {
            assert(out@.map_values(|e: EntityDiff| entity_view(e)) + Seq::<(Seq<char>, usize, Seq<char>, Seq<u8>)>::empty()
                =~= out@.map_values(|e: EntityDiff| entity_view(e)));
        }
        Ok(out)
    }
}


/// Where a network variable class keeps its state-changed hook.
#[derive(Debug)]
pub struct NetVarEntry {
    pub class_name: String,
    pub vfunc_count: usize,
    /// The hook's slot and the function in it, or why it was not found.
    pub found: Result<(u64, u64), S2Error>,
}

/// A network variable class: its name contains `NetworkVar_` and does not
/// start with `CUtlVectorDataOps`.
pub open spec fn is_networkvar_class(name: Seq<char>) -> bool {
    contains_chars(name, "NetworkVar_"@) && !crate::text::starts_with_chars(name, "CUtlVectorDataOps"@)
}

impl S2BinLib {
    /// The entry of one network variable vtable.
    pub open spec fn netvar_entry(&self, vt: VTableInfo) -> (Seq<char>, usize, Result<(u64, u64), S2Error>) {
        (vt.class_name@, vt.methods@.len() as usize, match self.spec_find_netvar(vt.vtable_address) {
            Err(e) => Err(e),
            Ok(idx) => if idx < vt.methods@.len() {
                Ok((idx, vt.methods@[idx as int]))
            } else {
                Err(S2Error::ReadOutOfBounds)
            },
        })
    }

    /// The entries of the network variable vtables among `vts`.
    pub open spec fn netvar_entries(&self, vts: Seq<VTableInfo>) -> Seq<(Seq<char>, usize, Result<(u64, u64), S2Error>)>
        decreases vts.len(),
    {
        if vts.len() == 0 {
            Seq::empty()
        } else {
            let rest = self.netvar_entries(vts.drop_last());
            if is_networkvar_class(vts.last().class_name@) {
                rest.push(self.netvar_entry(vts.last()))
            } else {
                rest
            }
        }
    }

    /// For each dumped vtable of the server binary that belongs to a network
    /// variable, where its state-changed hook is.
    pub fn networkvar_entries(&self) -> (r: Result<Vec<NetVarEntry>, S2Error>)
        requires
            self.wf(),
        ensures
            match r {
                Err(e) => !self.vtables_view().contains_key("server"@) && e == S2Error::VtablesNotDumped,
                Ok(v) => self.vtables_view().contains_key("server"@)
                    && v@.map_values(|x: NetVarEntry| (x.class_name@, x.vfunc_count, x.found))
                        == self.netvar_entries(self.vtables_view()["server"@]),
            },
    {
        let vts = self.get_vtables("server")?;
        let mut out: Vec<NetVarEntry> = Vec::new();
        let mut a: usize = 0;
        while a < vts.len()
            invariant
                self.wf(),
                a <= vts@.len(),
                out@.map_values(|x: NetVarEntry| (x.class_name@, x.vfunc_count, x.found)) == self.netvar_entries(vts@.take(a as int)),
            decreases vts@.len() - a,
        {
            let vt = &vts[a];
            proof {
                assert(vts@.take(a + 1).drop_last() =~= vts@.take(a as int));
                assert(vts@.take(a + 1).last() == *vt);
            }
            if str_contains(vt.class_name.as_str(), "NetworkVar_") && !crate::text::str_starts_with(vt.class_name.as_str(), "CUtlVectorDataOps") {
                let found = match self.find_networkvar_vtable_statechanged_rva(vt.vtable_address) {
                    Err(e) => Err(e),
                    Ok(idx) => {
                        if idx < vt.methods.len() as u64 {
                            Ok((idx, vt.methods[idx as usize]))
                        } else {
                            Err(S2Error::ReadOutOfBounds)
                        }
                    },
                };
                let e = NetVarEntry { class_name: vt.class_name.clone(), vfunc_count: vt.methods.len(), found };
                let ghost before = out@.map_values(|x: NetVarEntry| (x.class_name@, x.vfunc_count, x.found));
                out.push(e);
                proof {
                    assert(out@.map_values(|x: NetVarEntry| (x.class_name@, x.vfunc_count, x.found))
                        =~= before.push((e.class_name@, e.vfunc_count, e.found)));
                }
            }
            a = a + 1;
        }
        proof {
            assert(vts@.take(a as int) =~= vts@);
        }
        Ok(out)
    }
}


/// Index of the first pair named `n`, from `k` on.
pub open spec fn index_of_name(g: Seq<(Seq<char>, Seq<usize>)>, n: Seq<char>, k: int) -> Option<int>
    decreases g.len() - k,
{
    if k < 0 || k >= g.len() {
        None
    } else if g[k].0 == n {
        Some(k)
    } else {
        index_of_name(g, n, k + 1)
    }
}

/// Only the names matter to `index_of_name`.
proof fn lemma_index_same_names(g: Seq<(Seq<char>, Seq<usize>)>, h: Seq<(Seq<char>, Seq<usize>)>, n: Seq<char>, k: int)
    requires
        g.len() == h.len(),
        forall|i: int| 0 <= i < g.len() ==> #[trigger] g[i].0 == h[i].0,
    ensures
        index_of_name(g, n, k) == index_of_name(h, n, k),
    decreases g.len() - k,
{
    if 0 <= k < g.len() {
        assert(g[k].0 == h[k].0);
        lemma_index_same_names(g, h, n, k + 1);
    }
}

/// `index_of_name` after a push.
proof fn lemma_index_push(g: Seq<(Seq<char>, Seq<usize>)>, x: (Seq<char>, Seq<usize>), n: Seq<char>, k: int)
    requires
        0 <= k <= g.len(),
    ensures
        index_of_name(g.push(x), n, k) == match index_of_name(g, n, k) {
            Some(i) => Some(i),
            None => if x.0 == n { Some(g.len() as int) } else { None },
        },
    decreases g.len() - k,
{
    if k < g.len() {
        assert(g.push(x)[k] == g[k]);
        lemma_index_push(g, x, n, k + 1);
    } else {
        assert(g.push(x)[k] == x);
        assert(index_of_name(g.push(x), n, k + 1) is None);
    }
}

/// The distinct class names of `vts` in order of first appearance, each
/// with the slot counts of its vtables in order.
pub open spec fn group_counts(vts: Seq<VTableInfo>) -> Seq<(Seq<char>, Seq<usize>)>
    decreases vts.len(),
{
    if vts.len() == 0 {
        Seq::empty()
    } else {
        let g = group_counts(vts.drop_last());
        let vt = vts.last();
        match index_of_name(g, vt.class_name@, 0) {
            Some(k) => g.update(k, (g[k].0, g[k].1.push(vt.methods@.len() as usize))),
            None => g.push((vt.class_name@, seq![vt.methods@.len() as usize])),
        }
    }
}

proof fn lemma_index_of_name(g: Seq<(Seq<char>, Seq<usize>)>, n: Seq<char>, k: int)
    requires
        0 <= k <= g.len(),
        forall|i: int| 0 <= i < k ==> g[i].0 != n,
    ensures
        match index_of_name(g, n, k) {
            Some(i) => k <= i < g.len() && g[i].0 == n && forall|j: int| 0 <= j < i ==> g[j].0 != n,
            None => forall|j: int| 0 <= j < g.len() ==> g[j].0 != n,
        },
    decreases g.len() - k,
{
    if k < g.len() && g[k].0 != n {
        lemma_index_of_name(g, n, k + 1);
    }
}

/// The class names of the vtables, each with the slot counts of its
/// vtables in order, sorted by name.
pub fn vtable_short_map(vts: &Vec<VTableInfo>) -> (r: Vec<(String, Vec<usize>)>)
    ensures
        crate::vsort::pairs_view(r@) == crate::vsort::sort_pairs_by_name(group_counts(vts@)),
{
    let mut out: Vec<(String, Vec<usize>)> = Vec::new();
    let mut index: crate::store::NamedStore<usize> = crate::store::NamedStore::new();
    let mut a: usize = 0;
    while a < vts.len()
        invariant
            index.wf(),
            a <= vts@.len(),
            crate::vsort::pairs_view(out@) == group_counts(vts@.take(a as int)),
            forall|n: Seq<char>| #[trigger] index.view().contains_key(n)
                ==> index_of_name(crate::vsort::pairs_view(out@), n, 0) == Some(index.view()[n] as int),
            forall|n: Seq<char>| !index.view().contains_key(n)
                ==> #[trigger] index_of_name(crate::vsort::pairs_view(out@), n, 0) is None,
        decreases vts@.len() - a,
    {
        let vt = &vts[a];
        let ghost g = crate::vsort::pairs_view(out@);
        proof {
            assert(vts@.take(a + 1).drop_last() =~= vts@.take(a as int));
            assert(vts@.take(a + 1).last() == *vt);
            lemma_index_of_name(g, vt.class_name@, 0);
        }
        match index.get(vt.class_name.as_str()) {
            Some(k) => {
                let k = *k;
                let mut entry: (String, Vec<usize>) = (String::new(), Vec::new());
                std::mem::swap(&mut entry, &mut out[k]);
                entry.1.push(vt.methods.len());
                out.set(k, entry);
                proof {
                    assert(crate::vsort::pairs_view(out@) =~= g.update(k as int, (g[k as int].0, g[k as int].1.push(vt.methods@.len() as usize))));
                    assert forall|i: int| 0 <= i < g.len() implies #[trigger] crate::vsort::pairs_view(out@)[i].0 == g[i].0 by {}
                    assert forall|n: Seq<char>| #[trigger] index_of_name(crate::vsort::pairs_view(out@), n, 0) == index_of_name(g, n, 0) by {
                        lemma_index_same_names(crate::vsort::pairs_view(out@), g, n, 0);
                    }
                }
            },
            None => {
                let ghost idx0 = index.view();
                index.insert(vt.class_name.clone(), out.len());
                let mut counts: Vec<usize> = Vec::new();
                counts.push(vt.methods.len());
                out.push((vt.class_name.clone(), counts));
                proof {
                    let g2 = crate::vsort::pairs_view(out@);
                    assert(g2 =~= g.push((vt.class_name@, seq![vt.methods@.len() as usize])));
                    assert forall|n: Seq<char>| #[trigger] index_of_name(g2, n, 0) == (if n == vt.class_name@ { Some(g.len() as int) } else { index_of_name(g, n, 0) }) by {
                        lemma_index_push(g, (vt.class_name@, seq![vt.methods@.len() as usize]), n, 0);
                    }
                }
            },
        }
        a = a + 1;
    }
    proof {
        assert(vts@.take(a as int) =~= vts@);
    }
    crate::vsort::sort_named_counts(&mut out);
    out
}

} // verus!
