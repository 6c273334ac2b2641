//! Reading Itanium C++ ABI RTTI from an image: `type_info` objects, their
//! names and base classes, and the vtables that point at them.
use vstd::prelude::*;

use crate::msvc::collect_methods;
use crate::msvc::spec_collect_methods;
use crate::store::U64Store;
use crate::text::{contains_chars, str_contains};
use crate::view::{
    spec_contains, spec_is_exec_addr, spec_locate, spec_read_c_string, spec_read_u32, spec_read_u64, ImageView,
};
use crate::vtable::{
    base_view, bases_view, vtable_view, BaseClassInfo, BaseClassModel, BaseView, TypeInfoData, VTableInfo,
    VTableModel, VTableView,
};

verus! {

broadcast use vstd::string::group_string_axioms;

/// A resolved `type_info` as plain values: its name and its flattened bases.
pub type TypeInfoView = (Seq<char>, Seq<BaseView>);

/// The parser's memory: resolved `type_info` objects by address, and the
/// addresses being resolved.
pub type ParserState = (Map<u64, TypeInfoView>, Set<u64>);

/// The plain values of a resolved `type_info`.
pub open spec fn typeinfo_view(t: TypeInfoData) -> TypeInfoView {
    (t.name@, bases_view(t.bases@))
}

/// What `cpp_demangle` makes of a mangled name: `Symbol::new`, then
/// `demangle`; `None` when either fails.
pub uninterp spec fn itanium_demangled(s: Seq<char>) -> Option<Seq<char>>;

/// `cpp_demangle::Symbol::new(s)` and its `demangle()`.
#[verifier::external_body]
fn itanium_demangle(s: &str) -> (r: Option<String>)
    ensures
        match r {
            Some(t) => itanium_demangled(s@) == Some(t@),
            None => itanium_demangled(s@) is None,
        },
{
    cpp_demangle::Symbol::new(s).ok().and_then(|sym| sym.demangle().ok())
}

/// A printable ASCII character that may appear in a type name: ASCII and
/// not a control character.
pub open spec fn is_name_char(c: char) -> bool {
    (c as u32) < 0x80 && (c as u32) >= 0x20 && (c as u32) != 0x7F
}

/// A character that may begin a type name: `_`, a digit or a letter.
pub open spec fn is_name_start(c: char) -> bool {
    c == '_' || ('0' <= c && c <= '9') || ('A' <= c && c <= 'Z') || ('a' <= c && c <= 'z')
}

/// A plausible `type_info` name: 1 to 512 printable ASCII characters,
/// starting with `_`, a digit or a letter.
pub open spec fn name_is_plausible(s: Seq<char>) -> bool {
    &&& 0 < s.len() <= 512
    &&& forall|k: int| 0 <= k < s.len() ==> is_name_char(#[trigger] s[k])
    &&& is_name_start(s[0])
}

/// The section name marks a section that may hold vtables.
pub open spec fn itanium_candidate(name: Option<String>) -> bool {
    match name {
        Some(n) => contains_chars(n@, ".data.rel.ro"@) || contains_chars(n@, ".data"@) || contains_chars(n@, ".rodata"@),
        None => false,
    }
}

/// The section and offset of a plausible `type_info` header at `addr`: in
/// a section without code, 8-aligned, with 16 bytes there, and a vtable
/// pointer that is zero or inside the image.
pub open spec fn spec_validate_header(v: ImageView, addr: u64) -> Option<(int, int)> {
    match spec_locate(v, addr) {
        None => None,
        Some((si, off)) => {
            let s = v.sections@[si];
            if s.executable || off % 8 != 0 || off + 16 > s.data@.len() {
                None
            } else {
                match spec_read_u64(v, s.address.wrapping_add(off as u64)) {
                    None => None,
                    Some(vp) => if vp != 0 && !spec_contains(v, vp) {
                        None
                    } else {
                        Some((si, off))
                    },
                }
            }
        },
    }
}

/// The name of the `type_info` at offset `off` of section `si`: the string
/// its name pointer points at, outside code, and plausible.
pub open spec fn spec_typeinfo_name(v: ImageView, si: int, off: int) -> Option<Seq<char>> {
    let s = v.sections@[si];
    match spec_read_u64(v, s.address.wrapping_add(off as u64).wrapping_add(8)) {
        None => None,
        Some(np) => if np == 0 || !spec_contains(v, np) {
            None
        } else {
            match spec_locate(v, np) {
                None => None,
                Some((nsi, _)) => if v.sections@[nsi].executable {
                    None
                } else {
                    match spec_read_c_string(v, np) {
                        None => None,
                        Some(name) => if name_is_plausible(name) { Some(name) } else { None },
                    }
                },
            }
        },
    }
}

/// `addr` holds a `type_info` header with a plausible name.
pub open spec fn spec_looks_like_typeinfo(v: ImageView, addr: u64) -> bool {
    match spec_validate_header(v, addr) {
        Some((si, off)) => spec_typeinfo_name(v, si, off) is Some,
        None => false,
    }
}

/// Resolves the `type_info` at `addr` with state `st`, nesting at most
/// `fuel` deep: a cached result; nothing for an address being resolved (a
/// cycle); else its demangled name (the raw name when demangling fails) and
/// its bases, cached when found.
pub open spec fn spec_resolve(v: ImageView, addr: u64, st: ParserState, fuel: nat) -> (Option<TypeInfoView>, ParserState)
    decreases fuel, 0nat, 0nat,
{
    if st.0.contains_key(addr) {
        (Some(st.0[addr]), st)
    } else if st.1.contains(addr) || fuel == 0 {
        (None, st)
    } else {
        let st1 = (st.0, st.1.insert(addr));
        let (res, st2) = match spec_validate_header(v, addr) {
            None => (None, st1),
            Some((si, off)) => match spec_typeinfo_name(v, si, off) {
                None => (None, st1),
                Some(raw) => {
                    let name = match itanium_demangled(raw) {
                        Some(d) => d,
                        None => raw,
                    };
                    let (bases, st3) = spec_resolve_bases(v, si, off, st1, (fuel - 1) as nat);
                    (Some((name, bases)), st3)
                },
            },
        };
        let st4 = (st2.0, st2.1.remove(addr));
        match res {
            Some(d) => (Some(d), (st4.0.insert(addr, d), st4.1)),
            None => (None, st4),
        }
    }
}

/// The bases of the `type_info` at offset `off` of section `si`: a single
/// base when the word 16 bytes in points at a `type_info`, else the base
/// list of a virtual/multiple inheritance `type_info`.
pub open spec fn spec_resolve_bases(v: ImageView, si: int, off: int, st: ParserState, fuel: nat) -> (Seq<BaseView>, ParserState)
    decreases fuel, 2nat, 0nat,
{
    let s = v.sections@[si];
    let base_va = s.address.wrapping_add(off as u64);
    match spec_read_u64(v, base_va.wrapping_add(16)) {
        Some(cand) => if cand != 0 && spec_looks_like_typeinfo(v, cand) {
            match spec_resolve(v, cand, st, fuel) {
                (Some((n, b)), st1) => (seq![(n, BaseClassModel::Itanium { offset: 0, flags: 0 })] + b, st1),
                (None, st1) => (Seq::empty(), st1),
            }
        } else {
            spec_vmi_bases(v, base_va, st, fuel)
        },
        None => spec_vmi_bases(v, base_va, st, fuel),
    }
}

/// The base list of the virtual/multiple inheritance `type_info` at
/// `base_va`: its base count at 20, then (pointer, offset-flags) pairs from
/// 24.
pub open spec fn spec_vmi_bases(v: ImageView, base_va: u64, st: ParserState, fuel: nat) -> (Seq<BaseView>, ParserState)
    decreases fuel, 1nat, 0x1_0000_0000nat,
{
    let count = match spec_read_u32(v, base_va.wrapping_add(20)) {
        Some(c) => c,
        None => 0,
    };
    if count == 0 {
        (Seq::empty(), st)
    } else {
        spec_vmi_from(v, base_va.wrapping_add(24), 0, count, st, fuel)
    }
}

/// Entries `k` to `count` of a base list, the first at `entry`: each
/// resolvable base, followed by its own bases; the list ends at the first
/// entry that cannot be read.
pub open spec fn spec_vmi_from(v: ImageView, entry: u64, k: u32, count: u32, st: ParserState, fuel: nat) -> (Seq<BaseView>, ParserState)
    decreases fuel, 1nat, count - k,
{
    if k >= count {
        (Seq::empty(), st)
    } else {
        match spec_read_u64(v, entry) {
            None => (Seq::empty(), st),
            Some(tp) => {
                let of = match spec_read_u64(v, entry.wrapping_add(8)) {
                    Some(x) => x as i64,
                    None => 0i64,
                };
                let (r, st1) = spec_resolve(v, tp, st, fuel);
                let (rest, st2) = spec_vmi_from(v, entry.wrapping_add(16), (k + 1) as u32, count, st1, fuel);
                let here = match r {
                    Some((n, b)) => seq![(n, BaseClassModel::Itanium { offset: of >> 8, flags: (of & 0xFF) as u32 })] + b,
                    None => Seq::empty(),
                };
                (here + rest, st2)
            },
        }
    }
}


/// A copy of a base class record.
pub fn copy_base(b: &BaseClassInfo) -> (r: BaseClassInfo)
    ensures
        base_view(r) == base_view(*b),
{
    BaseClassInfo { class_name: b.class_name.clone(), details: b.details }
}

/// A copy of a list of base class records.
pub fn copy_bases(v: &Vec<BaseClassInfo>) -> (r: Vec<BaseClassInfo>)
    ensures
        bases_view(r@) == bases_view(v@),
{
    let mut r: Vec<BaseClassInfo> = Vec::new();
    let mut i: usize = 0;
    while i < v.len()
        invariant
            i <= v@.len(),
            bases_view(r@) == bases_view(v@).take(i as int),
        decreases v@.len() - i,
    {
        let ghost before = r@;
        let c = copy_base(&v[i]);
        r.push(c);
        proof {
            assert(bases_view(r@) =~= bases_view(before).push(base_view(c)));
            assert(bases_view(v@)[i as int] == base_view(v@[i as int]));
            assert(bases_view(r@) =~= bases_view(v@).take(i + 1));
        }
        i = i + 1;
    }
    proof {
        assert(bases_view(v@).take(i as int) =~= bases_view(v@));
    }
    r
}

/// A copy of a resolved `type_info`.
pub fn copy_typeinfo(t: &TypeInfoData) -> (r: TypeInfoData)
    ensures
        typeinfo_view(r) == typeinfo_view(*t),
{
    TypeInfoData { name: t.name.clone(), bases: copy_bases(&t.bases) }
}

/// Whether a `type_info` name is plausible.
pub fn typeinfo_name_is_plausible(name: &str) -> (r: bool)
    ensures
        r == name_is_plausible(name@),
{
    let n = name.unicode_len();
    if n == 0 || n > 512 {
        return false;
    }
    let mut i: usize = 0;
    while i < n
        invariant
            n == name@.len(),
            i <= n,
            forall|k: int| 0 <= k < i ==> is_name_char(#[trigger] name@[k]),
        decreases n - i,
    {
        let c = name.get_char(i);
        if !((c as u32) < 0x80 && (c as u32) >= 0x20 && (c as u32) != 0x7F) {
            return false;
        }
        i = i + 1;
    }
    let c = name.get_char(0);
    c == '_' || ('0' <= c && c <= '9') || ('A' <= c && c <= 'Z') || ('a' <= c && c <= 'z')
}

/// Reads Itanium RTTI from an image, remembering resolved `type_info`
/// objects and the ones being resolved.
pub struct ItaniumParser<'a> {
    pub view: &'a ImageView,
    type_cache: U64Store<TypeInfoData>,
    visiting: U64Store<bool>,
}

impl<'a> ItaniumParser<'a> {
    /// The stores are consistent.
    pub closed spec fn wf(&self) -> bool {
        self.type_cache.wf() && self.visiting.wf()
    }

    /// The image being read.
    pub closed spec fn image(&self) -> ImageView {
        *self.view
    }

    /// The parser's memory as plain values.
    pub closed spec fn state(&self) -> ParserState {
        (self.type_cache.view().map_values(|t: TypeInfoData| typeinfo_view(t)), self.visiting.view().dom())
    }

    /// A parser with nothing resolved yet.
    pub fn new(view: &'a ImageView) -> (r: Self)
        ensures
            r.wf(),
            r.image() == *view,
            r.state().0.is_empty(),
            r.state().1.is_empty(),
    {
        let r = ItaniumParser { view, type_cache: U64Store::new(), visiting: U64Store::new() };
        proof {
            assert(r.state().0 =~= Map::empty());
            assert(r.state().1 =~= Set::empty());
        }
        r
    }

    /// The section and offset of a `type_info` header at `addr`.
    fn validate_typeinfo_header(&self, addr: u64) -> (r: Option<(usize, u64)>)
        ensures
            match r {
                Some((si, off)) => spec_validate_header(*self.view, addr) == Some((si as int, off as int))
                    && si < self.view.sections@.len(),
                None => spec_validate_header(*self.view, addr) is None,
            },
    {
        let (si, off) = self.view.locate(addr)?;
        let s = &self.view.sections[si];
        if s.executable || off % 8 != 0 || s.data.len() as u64 - off < 16 {
            return None;
        }
        let vp = self.view.read_u64(s.address.wrapping_add(off))?;
        if vp != 0 && !self.view.contains(vp) {
            return None;
        }
        Some((si, off))
    }

    /// The name of the `type_info` at offset `off` of section `si`.
    fn read_typeinfo_name(&self, si: usize, off: u64) -> (r: Option<String>)
        requires
            si < self.view.sections@.len(),
        ensures
            match spec_typeinfo_name(*self.view, si as int, off as int) {
                Some(n) => r matches Some(s) && s@ == n,
                None => r is None,
            },
    {
        let s = &self.view.sections[si];
        let np = self.view.read_u64(s.address.wrapping_add(off).wrapping_add(8))?;
        if np == 0 || !self.view.contains(np) {
            return None;
        }
        let (nsi, _) = self.view.locate(np)?;
        if self.view.sections[nsi].executable {
            return None;
        }
        let name = self.view.read_c_string(np)?;
        if !typeinfo_name_is_plausible(name.as_str()) {
            return None;
        }
        Some(name)
    }

    /// Whether `addr` holds a `type_info` with a plausible name.
    fn looks_like_typeinfo(&self, addr: u64) -> (r: bool)
        ensures
            r == spec_looks_like_typeinfo(*self.view, addr),
    {
        match self.validate_typeinfo_header(addr) {
            Some((si, off)) => self.read_typeinfo_name(si, off).is_some(),
            None => false,
        }
    }

    /// Resolves the `type_info` at `addr`, nesting at most `fuel` deep.
    pub fn resolve_typeinfo(&mut self, addr: u64, fuel: u64) -> (r: Option<TypeInfoData>)
        requires
            old(self).wf(),
        ensures
            final(self).wf(),
            final(self).image() == old(self).image(),
            (match r { Some(t) => Some(typeinfo_view(t)), None => None }, final(self).state())
                == spec_resolve(old(self).image(), addr, old(self).state(), fuel as nat),
        decreases fuel, 0nat, 0nat,
    {
        if let Some(c) = self.type_cache.get(addr) {
            let t = copy_typeinfo(c);
            return Some(t);
        }
        if self.visiting.contains_key(addr) || fuel == 0 {
            return None;
        }
        let ghost st0 = self.state();
        self.visiting.insert(addr, true);
        proof {
            assert(self.state().1 =~= st0.1.insert(addr));
            assert(self.state().0 =~= st0.0);
        }
        let ghost st1 = self.state();
        let res: Option<TypeInfoData> = match self.validate_typeinfo_header(addr) {
            None => None,
            Some((si, off)) => match self.read_typeinfo_name(si, off) {
                None => None,
                Some(raw) => {
                    let name = match itanium_demangle(raw.as_str()) {
                        Some(d) => d,
                        None => raw,
                    };
                    let bases = self.resolve_bases(si, off, fuel - 1);
                    Some(TypeInfoData { name, bases })
                },
            },
        };
        let ghost st2 = self.state();
        self.visiting.remove(addr);
        proof {
            assert(self.state().1 =~= st2.1.remove(addr));
            assert(self.state().0 =~= st2.0);
        }
        match res {
            Some(d) => {
                let ghost st4 = self.state();
                let c = copy_typeinfo(&d);
                self.type_cache.insert(addr, c);
                proof {
                    assert(self.state().0 =~= st4.0.insert(addr, typeinfo_view(d)));
                    assert(self.state().1 =~= st4.1);
                }
                Some(d)
            },
            None => None,
        }
    }

    /// The bases of the `type_info` at offset `off` of section `si`.
    fn resolve_bases(&mut self, si: usize, off: u64, fuel: u64) -> (r: Vec<BaseClassInfo>)
        requires
            old(self).wf(),
            si < old(self).view.sections@.len(),
        ensures
            final(self).wf(),
            final(self).view == old(self).view,
            (bases_view(r@), final(self).state()) == spec_resolve_bases(*old(self).view, si as int, off as int, old(self).state(), fuel as nat),
        decreases fuel, 2nat, 0nat,
    {
        let base_va = self.view.sections[si].address.wrapping_add(off);
        match self.view.read_u64(base_va.wrapping_add(16)) {
            Some(cand) => {
                if cand != 0 && self.looks_like_typeinfo(cand) {
                    match self.resolve_typeinfo(cand, fuel) {
                        Some(t) => {
                            let TypeInfoData { name, bases } = t;
                            let mut v: Vec<BaseClassInfo> = Vec::new();
                            v.push(BaseClassInfo { class_name: name, details: BaseClassModel::Itanium { offset: 0, flags: 0 } });
                            let mut more = bases;
                            let ghost mv = bases_view(more@);
                            let ghost head = bases_view(v@);
                            v.append(&mut more);
                            proof {
                                assert(bases_view(v@) =~= head + mv);
                            }
                            v
                        },
                        None => {
                            proof {
                                assert(bases_view(Seq::<BaseClassInfo>::empty()) =~= Seq::<BaseView>::empty());
                            }
                            Vec::new()
                        },
                    }
                } else {
                    self.vmi_bases(base_va, fuel)
                }
            },
            None => self.vmi_bases(base_va, fuel),
        }
    }

    /// The base list of the virtual/multiple inheritance `type_info` at
    /// `base_va`.
    #[verifier::rlimit(50)]
    fn vmi_bases(&mut self, base_va: u64, fuel: u64) -> (r: Vec<BaseClassInfo>)
        requires
            old(self).wf(),
        ensures
            final(self).wf(),
            final(self).view == old(self).view,
            (bases_view(r@), final(self).state()) == spec_vmi_bases(*old(self).view, base_va, old(self).state(), fuel as nat),
        decreases fuel, 1nat, 0x1_0000_0000nat,
    {
        let count = match self.view.read_u32(base_va.wrapping_add(20)) {
            Some(c) => c,
            None => 0,
        };
        let mut bases: Vec<BaseClassInfo> = Vec::new();
        if count == 0 {
            proof {
                assert(bases_view(bases@) =~= Seq::<BaseView>::empty());
            }
            return bases;
        }
        let ghost entry0 = base_va.wrapping_add(24);
        let ghost st0 = self.state();
        let mut entry = base_va.wrapping_add(24);
        let mut k: u32 = 0;
        proof {
            assert(bases_view(bases@) + spec_vmi_from(*self.view, entry, k, count, self.state(), fuel as nat).0
                =~= spec_vmi_from(*self.view, entry, k, count, self.state(), fuel as nat).0);
        }
        while k < count
            invariant
                self.wf(),
                self.view == old(self).view,
                k <= count,
                st0 == old(self).state(),
                spec_vmi_bases(*self.view, base_va, st0, fuel as nat) == spec_vmi_from(*self.view, entry0, 0, count, st0, fuel as nat),
                spec_vmi_from(*self.view, entry0, 0, count, st0, fuel as nat) == (
                    bases_view(bases@) + spec_vmi_from(*self.view, entry, k, count, self.state(), fuel as nat).0,
                    spec_vmi_from(*self.view, entry, k, count, self.state(), fuel as nat).1,
                ),
            decreases count - k,
        {
            let ghost st = self.state();
            let tp = match self.view.read_u64(entry) {
                Some(t) => t,
                None => {
                    proof {
                        assert(bases_view(bases@) + Seq::<BaseView>::empty() =~= bases_view(bases@));
                    }
                    return bases;
                },
            };
            let of: i64 = match self.view.read_u64(entry.wrapping_add(8)) {
                Some(x) => x as i64,
                None => 0,
            };
            let ghost before = bases_view(bases@);
            let resolved = self.resolve_typeinfo(tp, fuel);
            let ghost st1 = self.state();
            let ghost rest = spec_vmi_from(*self.view, entry.wrapping_add(16), (k + 1) as u32, count, st1, fuel as nat);
            match resolved {
                Some(t) => {
                    let TypeInfoData { name, bases: nested } = t;
                    let b = BaseClassInfo { class_name: name, details: BaseClassModel::Itanium { offset: of >> 8, flags: (of & 0xFF) as u32 } };
                    bases.push(b);
                    let mut more = nested;
                    let ghost mv = bases_view(more@);
                    let ghost mid = bases_view(bases@);
                    bases.append(&mut more);
                    proof {
                        assert(mid =~= before.push(base_view(b)));
                        assert(bases_view(bases@) =~= mid + mv);
                        assert(before + ((seq![base_view(b)] + mv) + rest.0) =~= bases_view(bases@) + rest.0);
                    }
                },
                None => {
                    proof {
                        assert(before + (Seq::<BaseView>::empty() + rest.0) =~= before + rest.0);
                    }
                },
            }
            entry = entry.wrapping_add(16);
            k = k + 1;
        }
        proof {
            assert(bases_view(bases@) + Seq::<BaseView>::empty() =~= bases_view(bases@));
        }
        bases
    }
}


/// `a + b`, or `u64::MAX` when that does not fit.
pub open spec fn sat_add(a: u64, b: u64) -> u64 {
    if a + b > u64::MAX { u64::MAX } else { (a + b) as u64 }
}

/// One more than the total size of the sections from `i` on (saturating):
/// no chain of distinct `type_info` addresses inside the image is longer.
pub open spec fn spec_fuel(v: ImageView, i: int) -> u64
    decreases v.sections@.len() - i,
{
    if i < 0 || i >= v.sections@.len() {
        1
    } else {
        sat_add(v.sections@[i].data@.len() as u64, spec_fuel(v, i + 1))
    }
}

/// The nesting bound the parser uses for an image.
pub fn image_fuel(v: &ImageView) -> (r: u64)
    ensures
        r == spec_fuel(*v, 0),
{
    let mut acc: u64 = 1;
    let mut i: usize = v.sections.len();
    while i > 0
        invariant
            i <= v.sections@.len(),
            acc == spec_fuel(*v, i as int),
        decreases i,
    {
        i = i - 1;
        acc = (v.sections[i].data.len() as u64).saturating_add(acc);
    }
    acc
}

/// The vtable at `va` whose `type_info` is at `tp`.
pub open spec fn spec_itanium_vtable(v: ImageView, va: u64, tp: u64, offset_to_top: i64, st: ParserState, fuel: nat) -> (Option<VTableView>, ParserState) {
    match spec_resolve(v, tp, st, fuel) {
        (Some((n, b)), st1) => (Some((n, va, spec_collect_methods(v, va, 0), b, VTableModel::Itanium { offset_to_top })), st1),
        (None, st1) => (None, st1),
    }
}

/// The slot addresses of section `i` from byte `offset` on, in steps of 8,
/// each with 24 bytes of the section from it.
pub open spec fn itanium_slots(v: ImageView, i: int, offset: int) -> Seq<u64>
    decreases v.sections@[i].data@.len() - offset,
{
    let s = v.sections@[i];
    if offset < 0 || offset + 24 > s.data@.len() {
        Seq::empty()
    } else {
        seq![s.address.wrapping_add(offset as u64)] + itanium_slots(v, i, offset + 8)
    }
}

/// The slot addresses of the candidate sections from `i` on.
pub open spec fn itanium_candidates(v: ImageView, i: int) -> Seq<u64>
    decreases v.sections@.len() - i,
{
    if i < 0 || i >= v.sections@.len() {
        Seq::empty()
    } else {
        (if itanium_candidate(v.sections@[i].name) { itanium_slots(v, i, 0) } else { Seq::empty() }) + itanium_candidates(v, i + 1)
    }
}

/// The vtables found at the slots: a slot whose second word points at a
/// resolvable `type_info` inside the image, whose third word is zero or in
/// code, and whose vtable address was not seen.
pub open spec fn itanium_collect(v: ImageView, slots: Seq<u64>, st: ParserState, seen: Set<u64>, fuel: nat) -> Seq<VTableView>
    decreases slots.len(),
{
    if slots.len() == 0 {
        Seq::empty()
    } else {
        let at = slots[0];
        let rest = slots.drop_first();
        let tp = match spec_read_u64(v, at.wrapping_add(8)) {
            Some(p) => p,
            None => 0,
        };
        if tp == 0 || !spec_contains(v, tp) {
            itanium_collect(v, rest, st, seen, fuel)
        } else {
            let (r, st1) = spec_resolve(v, tp, st, fuel);
            let first = match spec_read_u64(v, at.wrapping_add(16)) {
                Some(m) => m,
                None => 0,
            };
            let va = at.wrapping_add(16);
            if r is None || (first != 0 && !spec_is_exec_addr(v, first)) || seen.contains(va) {
                itanium_collect(v, rest, st1, seen, fuel)
            } else {
                let ott = match spec_read_u64(v, at) {
                    Some(x) => x as i64,
                    None => 0i64,
                };
                let (info, st2) = spec_itanium_vtable(v, va, tp, ott, st1, fuel);
                (match info {
                    Some(t) => seq![t],
                    None => Seq::empty(),
                }) + itanium_collect(v, rest, st2, seen.insert(va), fuel)
            }
        }
    }
}

/// The vtables of an image, in the order they are found.
pub open spec fn spec_itanium_vtables(v: ImageView) -> Seq<VTableView> {
    itanium_collect(v, itanium_candidates(v, 0), (Map::empty(), Set::empty()), Set::empty(), spec_fuel(v, 0) as nat)
}

fn itanium_section_is_candidate(name: &Option<String>) -> (r: bool)
    ensures
        r == itanium_candidate(*name),
{
    match name {
        Some(n) => str_contains(n.as_str(), ".data.rel.ro") || str_contains(n.as_str(), ".data") || str_contains(n.as_str(), ".rodata"),
        None => false,
    }
}

impl<'a> ItaniumParser<'a> {
    /// The vtable at `vtable_va` whose `type_info` is at `typeinfo_ptr`.
    pub fn build_vtable_info(&mut self, vtable_va: u64, typeinfo_ptr: u64, offset_to_top: i64, fuel: u64) -> (r: Option<VTableInfo>)
        requires
            old(self).wf(),
        ensures
            final(self).wf(),
            final(self).image() == old(self).image(),
            (match r { Some(t) => Some(vtable_view(t)), None => None }, final(self).state())
                == spec_itanium_vtable(old(self).image(), vtable_va, typeinfo_ptr, offset_to_top, old(self).state(), fuel as nat),
    {
        let info = self.resolve_typeinfo(typeinfo_ptr, fuel)?;
        let methods = collect_methods(self.view, vtable_va);
        let TypeInfoData { name, bases } = info;
        Some(VTableInfo {
            class_name: name,
            vtable_address: vtable_va,
            methods,
            bases,
            model: VTableModel::Itanium { offset_to_top },
        })
    }

    /// Tries the slot at `at`.
    fn scan_slot(&mut self, at: u64, seen: &mut U64Store<bool>, results: &mut Vec<VTableInfo>, fuel: u64, Ghost(tail): Ghost<Seq<u64>>)
        requires
            old(self).wf(),
            old(seen).wf(),
        ensures
            final(self).wf(),
            final(seen).wf(),
            final(self).image() == old(self).image(),
            crate::vtable::vtables_view_of(old(results)@)
                + itanium_collect(old(self).image(), seq![at] + tail, old(self).state(), old(seen).view().dom(), fuel as nat)
                == crate::vtable::vtables_view_of(final(results)@)
                + itanium_collect(old(self).image(), tail, final(self).state(), final(seen).view().dom(), fuel as nat),
    {
        let ghost v = self.image();
        proof {
            assert((seq![at] + tail).drop_first() =~= tail);
            assert((seq![at] + tail)[0] == at);
        }
        let tp = match self.view.read_u64(at.wrapping_add(8)) {
            Some(p) => p,
            None => 0,
        };
        if tp == 0 || !self.view.contains(tp) {
            return;
        }
        let resolved = self.resolve_typeinfo(tp, fuel);
        let first = match self.view.read_u64(at.wrapping_add(16)) {
            Some(m) => m,
            None => 0,
        };
        let va = at.wrapping_add(16);
        if resolved.is_none() || (first != 0 && !self.view.is_executable(first)) || seen.contains_key(va) {
            return;
        }
        let ott: i64 = match self.view.read_u64(at) {
            Some(x) => x as i64,
            None => 0,
        };
        let ghost seen_before = seen.view().dom();
        seen.insert(va, true);
        proof {
            assert(seen.view().dom() =~= seen_before.insert(va));
        }
        let ghost before = results@;
        let ghost st1 = self.state();
        match self.build_vtable_info(va, tp, ott, fuel) {
            Some(info) => {
                results.push(info);
                proof {
                    assert(crate::vtable::vtables_view_of(results@) =~= crate::vtable::vtables_view_of(before).push(vtable_view(info)));
                    assert(crate::vtable::vtables_view_of(before) + (seq![vtable_view(info)]
                        + itanium_collect(v, tail, self.state(), seen.view().dom(), fuel as nat))
                        =~= crate::vtable::vtables_view_of(results@) + itanium_collect(v, tail, self.state(), seen.view().dom(), fuel as nat));
                }
            },
            None => {
                proof {
                    assert(Seq::<VTableView>::empty() + itanium_collect(v, tail, self.state(), seen.view().dom(), fuel as nat)
                        =~= itanium_collect(v, tail, self.state(), seen.view().dom(), fuel as nat));
                }
            },
        }
    }

    /// The vtables that point at resolvable `type_info` objects in the
    /// image's data sections, sorted by address.
    pub fn parse(&mut self) -> (r: Vec<VTableInfo>)
        requires
            old(self).wf(),
            old(self).state().0.is_empty(),
            old(self).state().1.is_empty(),
        ensures
            crate::vtable::vtables_view_of(r@) == crate::vsort::sort_views_by_address(spec_itanium_vtables(old(self).image())),
    {
        let ghost v = self.image();
        let fuel = image_fuel(self.view);
        let mut results: Vec<VTableInfo> = Vec::new();
        let mut seen: U64Store<bool> = U64Store::new();
        proof {
            assert(self.state() == (Map::<u64, TypeInfoView>::empty(), Set::<u64>::empty()));
            assert(seen.view().dom() =~= Set::<u64>::empty());
            assert(crate::vtable::vtables_view_of(results@) + spec_itanium_vtables(v) =~= spec_itanium_vtables(v));
        }
        let n = self.view.sections.len();
        let mut i: usize = 0;
        while i < n
            invariant
                self.wf(),
                seen.wf(),
                self.image() == v,
                n == v.sections@.len(),
                fuel == spec_fuel(v, 0),
                i <= n,
                spec_itanium_vtables(v) == crate::vtable::vtables_view_of(results@)
                    + itanium_collect(v, itanium_candidates(v, i as int), self.state(), seen.view().dom(), fuel as nat),
            decreases n - i,
        {
            let ghost rest = itanium_candidates(v, i + 1);
            if itanium_section_is_candidate(&self.view.sections[i].name) {
                let address = self.view.sections[i].address;
                let len = self.view.sections[i].data.len();
                let mut offset: usize = 0;
                while len >= 24 && offset <= len - 24
                    invariant
                        self.wf(),
                        seen.wf(),
                        self.image() == v,
                        i < v.sections@.len(),
                        len == v.sections@[i as int].data@.len(),
                        address == v.sections@[i as int].address,
                        offset <= len,
                        spec_itanium_vtables(v) == crate::vtable::vtables_view_of(results@)
                            + itanium_collect(v, itanium_slots(v, i as int, offset as int) + rest, self.state(), seen.view().dom(), fuel as nat),
                    decreases len - offset,
                {
                    let at = address.wrapping_add(offset as u64);
                    let ghost tail = itanium_slots(v, i as int, offset + 8) + rest;
                    proof {
                        assert(itanium_slots(v, i as int, offset as int) + rest =~= seq![at] + tail);
                    }
                    self.scan_slot(at, &mut seen, &mut results, fuel, Ghost(tail));
                    offset = offset + 8;
                }
                proof {
                    assert(itanium_slots(v, i as int, offset as int) + rest =~= rest);
                }
            } else {
                proof {
                    assert(Seq::<u64>::empty() + rest =~= rest);
                }
            }
            i = i + 1;
        }
        proof {
            assert(crate::vtable::vtables_view_of(results@) + Seq::<VTableView>::empty() =~= crate::vtable::vtables_view_of(results@));
        }
        crate::vsort::sort_vtables_by_address(&mut results);
        results
    }
}

} // verus!
