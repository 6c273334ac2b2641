//! Dumping the vtables of a loaded binary from its RTTI.
use vstd::prelude::*;

use crate::error::S2Error;
use crate::itanium::{spec_itanium_vtables, ItaniumParser};
use crate::msvc::{spec_msvc_vtables, MsvcParser};
use crate::objfile::{object_file_kind, object_section_table, read_file_kind, FileKindModel};
use crate::s2binlib::S2BinLib;
use crate::view::{file_view, is_file_view};
use crate::vsort::{sort_views_by_address, sort_views_by_name, sort_vtables_by_name};
use crate::text::{contains_chars, str_contains, str_eq};
use crate::store::NamedStore;
use crate::vsort::{ref_views, sort_refs_by_name};
use crate::vtable::{vtable_view, vtables_view_of, VTableInfo, VTableView};

verus! {

/// Whether the file is 64-bit.
pub open spec fn kind_is_64(k: FileKindModel) -> bool {
    match k {
        FileKindModel::Pe64 { .. } => true,
        FileKindModel::Elf64 => true,
        FileKindModel::Pe32 { .. } => false,
        FileKindModel::Elf32 => false,
        FileKindModel::Other { is_64 } => is_64,
    }
}

/// The image base that RTTI addresses of the file are relative to: a PE
/// file's preferred base, 0 otherwise.
pub open spec fn kind_image_base(k: FileKindModel) -> u64 {
    match k {
        FileKindModel::Pe64 { image_base } => image_base,
        FileKindModel::Pe32 { image_base } => image_base,
        _ => 0,
    }
}

/// The vtables of a view, found by the ABI of the file kind (MSVC for PE,
/// Itanium for ELF), sorted by address; `None` for other formats.
pub open spec fn spec_vtables_of_view(k: FileKindModel, v: crate::view::ImageView) -> Option<Seq<VTableView>> {
    match k {
        FileKindModel::Pe64 { .. } => Some(sort_views_by_address(spec_msvc_vtables(v))),
        FileKindModel::Pe32 { .. } => Some(sort_views_by_address(spec_msvc_vtables(v))),
        FileKindModel::Elf64 => Some(sort_views_by_address(spec_itanium_vtables(v))),
        FileKindModel::Elf32 => Some(sort_views_by_address(spec_itanium_vtables(v))),
        FileKindModel::Other { .. } => None,
    }
}

impl S2BinLib {
    /// The file kind of binary `bin` when its vtables can be dumped, or
    /// why they cannot: it must parse, be 64-bit, and have a section table.
    pub open spec fn spec_vtable_source(&self, bin: Seq<char>) -> Result<FileKindModel, S2Error> {
        if !self.binaries_view().contains_key(bin) {
            Err(S2Error::BinaryNotFound)
        } else {
            let d = self.binaries_view()[bin];
            match object_file_kind(d) {
                None => Err(S2Error::ObjectParse),
                Some(k) => if !kind_is_64(k) {
                    Err(S2Error::Not64Bit)
                } else if object_section_table(d) is None {
                    Err(S2Error::ObjectParse)
                } else if k is Other {
                    Err(S2Error::UnsupportedFormat)
                } else {
                    Ok(k)
                },
            }
        }
    }

    /// Reads the RTTI of binary `binary_name` (MSVC for PE, Itanium for
    /// ELF, 64-bit only) and caches its vtables, sorted by class name.
    pub fn dump_vtables(&mut self, binary_name: &str) -> (r: Result<(), S2Error>)
        requires
            old(self).wf(),
        ensures
            final(self).wf(),
            final(self).same_setup(*old(self)),
            final(self).xrefs_view() == old(self).xrefs_view(),
            final(self).calls_targets_view() == old(self).calls_targets_view(),
            final(self).strings_view() == old(self).strings_view(),
            match old(self).spec_vtable_source(binary_name@) {
                Err(e) => r == Err::<(), S2Error>(e) && final(self).vtables_view() == old(self).vtables_view(),
                Ok(k) => r is Ok
                    && final(self).vtables_view().dom() == old(self).vtables_view().dom().insert(binary_name@)
                    && (forall|n: Seq<char>| n != binary_name@ && #[trigger] old(self).vtables_view().contains_key(n)
                        ==> final(self).vtables_view()[n] == old(self).vtables_view()[n])
                    && exists|v: crate::view::ImageView| is_file_view(v, old(self).binaries_view()[binary_name@], kind_image_base(k))
                        && (spec_vtables_of_view(k, v) matches Some(found)
                        && vtables_view_of(final(self).vtables_view()[binary_name@]) == sort_views_by_name(found)),
            },
    {
        proof {
            self.lemma_same_setup_refl();
        }
        let data = self.get_binary(binary_name)?;
        let kind = read_file_kind(data)?;
        let (is_64, image_base, pe) = match kind {
            FileKindModel::Pe64 { image_base } => (true, image_base, Some(true)),
            FileKindModel::Pe32 { image_base } => (false, image_base, Some(true)),
            FileKindModel::Elf64 => (true, 0, Some(false)),
            FileKindModel::Elf32 => (false, 0, Some(false)),
            FileKindModel::Other { is_64 } => (is_64, 0, None),
        };
        if !is_64 {
            return Err(S2Error::Not64Bit);
        }
        let view = file_view(data, image_base)?;
        let mut vtables: Vec<VTableInfo> = match pe {
            Some(true) => MsvcParser::new(&view).parse(),
            Some(false) => {
                let mut parser = ItaniumParser::new(&view);
                parser.parse()
            },
            None => {
                return Err(S2Error::UnsupportedFormat);
            },
        };
        let ghost found = vtables_view_of(vtables@);
        sort_vtables_by_name(&mut vtables);
        proof {
            assert(spec_vtables_of_view(kind, view) == Some(found));
        }
        let ghost sorted = vtables@;
        self.set_vtables(binary_name, vtables);
        proof {
            assert(self.vtables_view()[binary_name@] == sorted);
            assert(self.vtables_view().dom() =~= old(self).vtables_view().dom().insert(binary_name@));
            assert(image_base == kind_image_base(kind));
            assert(is_file_view(view, old(self).binaries_view()[binary_name@], kind_image_base(kind)));
            assert(old(self).spec_vtable_source(binary_name@) == Ok::<FileKindModel, S2Error>(kind));
            assert(vtables_view_of(self.vtables_view()[binary_name@]) == sort_views_by_name(found));
        }
        Ok(())
    }
}


/// The class names of the vtables.
pub open spec fn class_names(vts: Seq<VTableInfo>) -> Set<Seq<char>> {
    vts.map_values(|v: VTableInfo| v.class_name@).to_set()
}

/// How many class names are not yet visited.
pub open spec fn unvisited(vts: Seq<VTableInfo>, visited: Set<Seq<char>>) -> nat {
    class_names(vts).difference(visited).len()
}

/// Visiting more leaves no more unvisited.
pub proof fn lemma_unvisited_mono(vts: Seq<VTableInfo>, a: Set<Seq<char>>, b: Set<Seq<char>>)
    requires
        a.subset_of(b),
    ensures
        unvisited(vts, b) <= unvisited(vts, a),
{
    let names = class_names(vts);
    vstd::seq_lib::seq_to_set_is_finite(vts.map_values(|v: VTableInfo| v.class_name@));
    vstd::set_lib::lemma_set_subset_finite(names, names.difference(a));
    vstd::set_lib::lemma_len_subset(names.difference(b), names.difference(a));
}

/// Visiting a new class name of the vtables leaves one fewer unvisited.
pub proof fn lemma_unvisited_insert(vts: Seq<VTableInfo>, a: Set<Seq<char>>, i: int)
    requires
        0 <= i < vts.len(),
        !a.contains(vts[i].class_name@),
    ensures
        unvisited(vts, a.insert(vts[i].class_name@)) < unvisited(vts, a),
{
    let names = class_names(vts);
    let x = vts[i].class_name@;
    vstd::seq_lib::seq_to_set_is_finite(vts.map_values(|v: VTableInfo| v.class_name@));
    assert(vts.map_values(|v: VTableInfo| v.class_name@)[i] == x);
    assert(names.contains(x));
    vstd::set_lib::lemma_set_subset_finite(names, names.difference(a));
    assert(names.difference(a.insert(x)) =~= names.difference(a).remove(x));
}

/// Some base class name of the vtable contains `target`.
pub open spec fn has_base_containing(vt: VTableInfo, target: Seq<char>) -> bool {
    exists|k: int| 0 <= k < vt.bases@.len() && contains_chars(#[trigger] vt.bases@[k].class_name@, target)
}

/// The vtable at `i` is a child of `target` not yet visited.
pub open spec fn is_new_child(vts: Seq<VTableInfo>, target: Seq<char>, visited: Set<Seq<char>>, i: int) -> bool {
    has_base_containing(vts[i], target) && vts[i].class_name@ != target && !visited.contains(vts[i].class_name@)
}

/// The children of `target`: each vtable, in order, with a base whose name
/// contains `target`, other than `target` itself and not yet visited, then
/// its own children; with the visited names after.
pub open spec fn children_rec(vts: Seq<VTableInfo>, target: Seq<char>, visited: Set<Seq<char>>) -> (Seq<int>, Set<Seq<char>>)
    decreases unvisited(vts, visited), 1nat, 0nat,
{
    children_loop(vts, target, visited, 0)
}

/// `children_rec`, from vtable `i` on.
pub open spec fn children_loop(vts: Seq<VTableInfo>, target: Seq<char>, visited: Set<Seq<char>>, i: int) -> (Seq<int>, Set<Seq<char>>)
    decreases unvisited(vts, visited), 0nat, vts.len() - i,
{
    if i < 0 || i >= vts.len() {
        (Seq::empty(), visited)
    } else if is_new_child(vts, target, visited, i) {
        let name = vts[i].class_name@;
        let v1 = visited.insert(name);
        proof {
            lemma_unvisited_insert(vts, visited, i);
        }
        let (sub, v2) = children_rec(vts, name, v1);
        let v3 = v1.union(v2);
        proof {
            lemma_unvisited_mono(vts, v1, v3);
        }
        let (rest, v4) = children_loop(vts, target, v3, i + 1);
        (seq![i] + sub + rest, v4)
    } else {
        children_loop(vts, target, visited, i + 1)
    }
}

pub(crate) fn has_base_containing_exec(vt: &VTableInfo, target: &str) -> (r: bool)
    ensures
        r == has_base_containing(*vt, target@),
{
    let mut k: usize = 0;
    while k < vt.bases.len()
        invariant
            k <= vt.bases@.len(),
            forall|j: int| 0 <= j < k ==> !contains_chars(#[trigger] vt.bases@[j].class_name@, target@),
        decreases vt.bases@.len() - k,
    {
        if str_contains(vt.bases[k].class_name.as_str(), target) {
            return true;
        }
        k = k + 1;
    }
    false
}

/// The children of `target` among `vts`, as `children_rec` gives them.
fn children_of<'b>(vts: &'b Vec<VTableInfo>, target: &str, visited: &mut NamedStore<bool>) -> (r: Vec<&'b VTableInfo>)
    requires
        old(visited).wf(),
    ensures
        final(visited).wf(),
        old(visited).view().dom().subset_of(final(visited).view().dom()),
        (r@.map_values(|x: &VTableInfo| *x), final(visited).view().dom())
            == (children_rec(vts@, target@, old(visited).view().dom()).0.map_values(|j: int| vts@[j]),
                children_rec(vts@, target@, old(visited).view().dom()).1),
    decreases unvisited(vts@, old(visited).view().dom()), 1nat, 0nat,
{
    let ghost v0 = visited.view().dom();
    let mut out: Vec<&'b VTableInfo> = Vec::new();
    let mut i: usize = 0;
    while i < vts.len()
        invariant
            visited.wf(),
            i <= vts@.len(),
            v0 == old(visited).view().dom(),
            v0.subset_of(visited.view().dom()),
            children_rec(vts@, target@, v0).0.map_values(|j: int| vts@[j])
                == out@.map_values(|x: &VTableInfo| *x) + children_loop(vts@, target@, visited.view().dom(), i as int).0.map_values(|j: int| vts@[j]),
            children_rec(vts@, target@, v0).1 == children_loop(vts@, target@, visited.view().dom(), i as int).1,
        decreases vts@.len() - i,
    {
        let vt = &vts[i];
        let ghost cur = visited.view().dom();
        if has_base_containing_exec(vt, target) && !str_eq(vt.class_name.as_str(), target) && !visited.contains_key(vt.class_name.as_str()) {
            assert(is_new_child(vts@, target@, cur, i as int));
            let ghost before = out@;
            out.push(vt);
            visited.insert(vt.class_name.clone(), true);
            let ghost v1 = visited.view().dom();
            proof {
                assert(v1 =~= cur.insert(vt.class_name@));
                lemma_unvisited_insert(vts@, cur, i as int);
                lemma_unvisited_mono(vts@, v0, cur);
            }
            let mut sub = children_of(vts, vt.class_name.as_str(), visited);
            let ghost v2 = visited.view().dom();
            proof {
                assert(v1.union(v2) =~= v2);
            }
            let ghost subv = sub@.map_values(|x: &VTableInfo| *x);
            let ghost mid = out@;
            out.append(&mut sub);
            proof {
                let rest = children_loop(vts@, target@, v2, i + 1).0;
                let head = children_rec(vts@, vt.class_name@, v1).0;
                assert(out@.map_values(|x: &VTableInfo| *x) =~= before.map_values(|x: &VTableInfo| *x).push(*vt) + subv);
                assert((seq![i as int] + head + rest).map_values(|j: int| vts@[j])
                    =~= seq![vts@[i as int]] + head.map_values(|j: int| vts@[j]) + rest.map_values(|j: int| vts@[j]));
                assert(before.map_values(|x: &VTableInfo| *x) + (seq![vts@[i as int]] + head.map_values(|j: int| vts@[j]) + rest.map_values(|j: int| vts@[j]))
                    =~= out@.map_values(|x: &VTableInfo| *x) + rest.map_values(|j: int| vts@[j]));
            }
        } else {
            assert(!is_new_child(vts@, target@, cur, i as int));
        }
        i = i + 1;
    }
    proof {
        assert(out@.map_values(|x: &VTableInfo| *x) + Seq::<VTableInfo>::empty() =~= out@.map_values(|x: &VTableInfo| *x));
        assert(Seq::<int>::empty().map_values(|j: int| vts@[j]) =~= Seq::<VTableInfo>::empty());
    }
    out
}

impl S2BinLib {
    /// The vtables that derive, directly or not, from class `vtable_name` in
    /// the dumped vtables of binary `binary_name`, each once, sorted by class
    /// name; an error when the vtables have not been dumped.
    pub fn get_all_vtable_children(&self, binary_name: &str, vtable_name: &str) -> (r: Result<Vec<&VTableInfo>, S2Error>)
        requires
            self.wf(),
        ensures
            match r {
                Ok(v) => self.vtables_view().contains_key(binary_name@)
                    && ref_views(v@) == sort_views_by_name(vtables_view_of(
                        children_rec(self.vtables_view()[binary_name@], vtable_name@, Set::empty()).0
                            .map_values(|j: int| self.vtables_view()[binary_name@][j]))),
                Err(e) => !self.vtables_view().contains_key(binary_name@) && e == S2Error::VtablesNotDumped,
            },
    {
        let vts = self.get_vtables(binary_name)?;
        let mut visited: NamedStore<bool> = NamedStore::new();
        proof {
            assert(visited.view().dom() =~= Set::<Seq<char>>::empty());
        }
        let mut children = children_of(vts, vtable_name, &mut visited);
        let ghost found = children@;
        sort_refs_by_name(&mut children);
        proof {
            assert(ref_views(found) =~= vtables_view_of(found.map_values(|x: &VTableInfo| *x)));
        }
        Ok(children)
    }
}


/// What `vtable_info_at` returns.
pub open spec fn spec_vtable_info_at(v: crate::view::ImageView, vtable_ptr: u64, windows: bool) -> Result<VTableView, S2Error> {
    let slot = vtable_ptr.wrapping_sub(8);
    if !crate::view::spec_contains(v, slot) {
        Err(S2Error::InvalidAddress)
    } else {
        match crate::view::spec_read_u64(v, slot) {
            None => Err(S2Error::ReadOutOfBounds),
            Some(rtti) => if windows {
                match crate::msvc::spec_parse_locator(v, rtti) {
                    None => Err(S2Error::VtableNotFound),
                    Some(loc) => match crate::msvc::spec_msvc_vtable(v, vtable_ptr, loc) {
                        None => Err(S2Error::VtableNotFound),
                        Some(t) => Ok(t),
                    },
                }
            } else {
                match crate::itanium::spec_itanium_vtable(v, vtable_ptr, rtti, 0, (Map::empty(), Set::empty()), crate::itanium::spec_fuel(v, 0) as nat).0 {
                    None => Err(S2Error::VtableNotFound),
                    Some(t) => Ok(t),
                }
            },
        }
    }
}

/// The vtable at `vtable_ptr` in a module's view: the RTTI pointer in the
/// slot before it read through the MSVC ABI (`windows`) or the Itanium ABI.
pub fn vtable_info_at(view: &crate::view::ImageView, vtable_ptr: u64, windows: bool) -> (r: Result<VTableInfo, S2Error>)
    ensures
        match spec_vtable_info_at(*view, vtable_ptr, windows) {
            Err(e) => r == Err::<VTableInfo, S2Error>(e),
            Ok(t) => r matches Ok(x) && vtable_view(x) == t,
        },
{
    let slot = vtable_ptr.wrapping_sub(8);
    if !view.contains(slot) {
        return Err(S2Error::InvalidAddress);
    }
    let rtti = match view.read_u64(slot) {
        Some(p) => p,
        None => {
            return Err(S2Error::ReadOutOfBounds);
        },
    };
    if windows {
        let parser = MsvcParser::new(view);
        let loc = match parser.parse_locator(rtti) {
            Some(l) => l,
            None => {
                return Err(S2Error::VtableNotFound);
            },
        };
        match parser.build_vtable_info(vtable_ptr, &loc) {
            Some(t) => Ok(t),
            None => Err(S2Error::VtableNotFound),
        }
    } else {
        let fuel = crate::itanium::image_fuel(view);
        let mut parser = ItaniumParser::new(view);
        proof {
            assert(parser.state().0 =~= Map::<u64, crate::itanium::TypeInfoView>::empty());
            assert(parser.state().1 =~= Set::<u64>::empty());
            assert(parser.state() == (Map::<u64, crate::itanium::TypeInfoView>::empty(), Set::<u64>::empty()));
        }
        match parser.build_vtable_info(vtable_ptr, rtti, 0, fuel) {
            Some(t) => Ok(t),
            None => Err(S2Error::VtableNotFound),
        }
    }
}

/// Some base class of the vtable is named `name`.
pub open spec fn has_base_named(vt: VTableInfo, name: Seq<char>) -> bool {
    exists|k: int| 0 <= k < vt.bases@.len() && #[trigger] vt.bases@[k].class_name@ == name
}

/// Whether some base class of the vtable is named `base_class_name`.
pub fn vtable_has_base(vt: &VTableInfo, base_class_name: &str) -> (r: bool)
    ensures
        r == has_base_named(*vt, base_class_name@),
{
    let mut k: usize = 0;
    while k < vt.bases.len()
        invariant
            k <= vt.bases@.len(),
            forall|j: int| 0 <= j < k ==> (#[trigger] vt.bases@[j]).class_name@ != base_class_name@,
        decreases vt.bases@.len() - k,
    {
        if str_eq(vt.bases[k].class_name.as_str(), base_class_name) {
            return true;
        }
        k = k + 1;
    }
    false
}

} // verus!
