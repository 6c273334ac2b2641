//! Reading MSVC RTTI from an image: complete object locators, type
//! descriptors, class hierarchy descriptors, and the vtables they describe.
use vstd::prelude::*;
use vstd::string::StringSliceAdditionalSpecFns;

use crate::text::{ascii_lower, ascii_lowercase, contains_chars, str_contains};
use crate::view::{
    spec_contains, spec_follow_rva, spec_is_exec_addr, spec_read_c_string, spec_read_u32, spec_read_u64, ImageView,
};
use crate::vtable::{
    bases_view, vtable_view, BaseClassInfo, BaseClassModel, BaseView, CompleteObjectLocator, Pmd, VTableInfo,
    VTableModel, VTableView,
};

verus! {

broadcast use vstd::string::group_string_axioms;

/// The most slots read from one vtable.
pub const MAX_VTABLE_METHODS: usize = 1024;

/// What `msvc_demangler::demangle` with full output makes of `s`; `None`
/// when it fails.
pub uninterp spec fn msvc_demangled(s: Seq<char>) -> Option<Seq<char>>;

/// The longest decorated name handed to the demangler. Its parser recurses
/// once per nested name with no depth limit, so a bound on the length bounds
/// the stack it needs; longer names are kept as they are.
pub const MAX_DEMANGLE_INPUT: usize = 1024;

/// The bytes `??_R0`, with which every name handed to the demangler starts
/// (an RTTI type descriptor).
pub open spec fn type_descriptor_prefix() -> Seq<u8> {
    seq![0x3Fu8, 0x3Fu8, 0x5Fu8, 0x52u8, 0x30u8]
}

/// The bytes `IAAAAAAA@`: a number whose last eight hex digits make
/// `i32::MIN`.
pub open spec fn min_number_bytes() -> Seq<u8> {
    seq![0x49u8, 0x41u8, 0x41u8, 0x41u8, 0x41u8, 0x41u8, 0x41u8, 0x41u8, 0x40u8]
}

/// An escape `?$` at byte `i` is followed, where bytes follow, by bytes no
/// lower than `A`.
pub open spec fn escape_ok(b: Seq<u8>, i: int) -> bool {
    !(b[i] == 0x3F && b[i + 1] == 0x24)
        || ((i + 2 >= b.len() || b[i + 2] >= 0x41) && (i + 3 >= b.len() || b[i + 3] >= 0x41))
}

/// A number that parses to `i32::MIN` ends at byte `i + 9`.
pub open spec fn min_number_at(b: Seq<u8>, i: int) -> bool {
    i + 9 <= b.len() && b.subrange(i, i + 9) == min_number_bytes()
}

/// A name the demangler parses without an arithmetic overflow: it starts
/// with `??_R0`; every `?$` is followed by bytes no lower than `A` (an
/// encoded-string escape subtracts `A` from the next two bytes); and no
/// number parses to `i32::MIN` (a template parameter index is negated).
pub open spec fn demangle_safe(b: Seq<u8>) -> bool {
    &&& b.len() >= 5
    &&& b.subrange(0, 5) == type_descriptor_prefix()
    &&& forall|i: int| 0 <= i < b.len() - 1 ==> escape_ok(b, i)
    &&& forall|i: int| 0 <= i < b.len() ==> !min_number_at(b, i)
}

/// Whether the name's bytes are safe to hand to the demangler.
fn is_demangle_safe(b: &[u8]) -> (r: bool)
    ensures
        r == demangle_safe(b@),
{
    let n = b.len();
    if n < 5 || b[0] != 0x3F || b[1] != 0x3F || b[2] != 0x5F || b[3] != 0x52 || b[4] != 0x30 {
        proof {
            if n >= 5 {
                assert(b@.subrange(0, 5)[0] == b@[0]);
                assert(b@.subrange(0, 5)[1] == b@[1]);
                assert(b@.subrange(0, 5)[2] == b@[2]);
                assert(b@.subrange(0, 5)[3] == b@[3]);
                assert(b@.subrange(0, 5)[4] == b@[4]);
            }
        }
        return false;
    }
    assert(b@.subrange(0, 5) =~= type_descriptor_prefix());
    let mut i: usize = 0;
    while i < n - 1
        invariant
            n == b@.len(),
            5 <= n,
            i <= n - 1,
            forall|k: int| 0 <= k < i ==> escape_ok(b@, k),
        decreases n - i,
    {
        if b[i] == 0x3F && b[i + 1] == 0x24 {
            if (i < n - 2 && b[i + 2] < 0x41) || (i < n - 3 && b[i + 3] < 0x41) {
                assert(!escape_ok(b@, i as int));
                return false;
            }
        }
        i = i + 1;
    }
    let pat: [u8; 9] = [0x49, 0x41, 0x41, 0x41, 0x41, 0x41, 0x41, 0x41, 0x40];
    assert(pat@ =~= min_number_bytes());
    let mut j: usize = 0;
    while j < n
        invariant
            n == b@.len(),
            5 <= n,
            pat@ == min_number_bytes(),
            b@.subrange(0, 5) == type_descriptor_prefix(),
            forall|k: int| 0 <= k < n - 1 ==> escape_ok(b@, k),
            forall|k: int| 0 <= k < j ==> !min_number_at(b@, k),
        decreases n - j,
    {
        if n >= 9 && j <= n - 9 {
            let mut m: usize = 0;
            while m < 9 && b[j + m] == pat[m]
                invariant
                    m <= 9,
                    j + 9 <= n == b@.len(),
                    pat@ == min_number_bytes(),
                    forall|q: int| 0 <= q < m ==> b@[j + q] == pat@[q],
                decreases 9 - m,
            {
                m = m + 1;
            }
            if m == 9 {
                assert(b@.subrange(j as int, j + 9) =~= min_number_bytes());
                assert(min_number_at(b@, j as int));
                return false;
            }
            assert(b@.subrange(j as int, j + 9)[m as int] != min_number_bytes()[m as int]);
        }
        j = j + 1;
    }
    true
}

/// `msvc_demangler::demangle(s, DemangleFlags::COMPLETE)`. The parser
/// subtracts `A` from the two bytes after an encoded-string escape `?$` and
/// negates template parameter indices, both without a check (a panic in a
/// build with overflow checks); `demangle_safe` keeps such input out. Its
/// recursion consumes input, so the length bound bounds its depth.
#[verifier::external_body]
fn msvc_demangle(s: &str) -> (r: Option<String>)
    requires
        s@.len() <= MAX_DEMANGLE_INPUT,
        demangle_safe(s.spec_bytes()),
    ensures
        match r {
            Some(t) => msvc_demangled(s@) == Some(t@),
            None => msvc_demangled(s@) is None,
        },
{
    msvc_demangler::demangle(s, msvc_demangler::DemangleFlags::COMPLETE).ok()
}

/// `s` without its leading dots.
pub open spec fn trim_dots(s: Seq<char>) -> Seq<char>
    decreases s.len(),
{
    if s.len() > 0 && s[0] == '.' {
        trim_dots(s.drop_first())
    } else {
        s
    }
}

/// Index of the first `c` in `s` at or after `i`.
pub open spec fn first_index_of(s: Seq<char>, c: char, i: int) -> Option<int>
    decreases s.len() - i,
{
    if i < 0 || i >= s.len() {
        None
    } else if s[i] == c {
        Some(i)
    } else {
        first_index_of(s, c, i + 1)
    }
}

/// Start of the last `::` in `s` that starts at or before `i`.
pub open spec fn last_double_colon(s: Seq<char>, i: int) -> Option<int>
    decreases i + 1,
{
    if i < 0 {
        None
    } else if i + 1 < s.len() && s[i] == ':' && s[i + 1] == ':' {
        Some(i)
    } else {
        last_double_colon(s, i - 1)
    }
}

/// The class name in a demangled type descriptor name: what follows the
/// first space, up to the last `::`.
pub open spec fn demangled_class(dm: Seq<char>) -> Option<Seq<char>> {
    match first_index_of(dm, ' ', 0) {
        None => None,
        Some(i) => {
            let rest = dm.skip(i + 1);
            match last_double_colon(rest, rest.len() - 2) {
                None => None,
                Some(j) => Some(rest.take(j)),
            }
        },
    }
}

/// The name of a type descriptor's class: its decorated name (16 bytes in),
/// wrapped as `??_R0<name>@8` and demangled to the class name; the wrapped
/// name itself when demangling gives none, or when the name is longer than
/// the demangler is given or not safe to give it.
pub open spec fn spec_type_name(v: ImageView, td: u64) -> Option<Seq<char>> {
    if td + 16 > u64::MAX {
        None
    } else {
        match spec_read_c_string(v, (td + 16) as u64) {
            None => None,
            Some(raw) => {
                let w = "??_R0"@ + trim_dots(raw) + "@8"@;
                Some(if w.len() > MAX_DEMANGLE_INPUT || !demangle_safe(vstd::utf8::encode_utf8(w)) {
                    w
                } else {
                    match msvc_demangled(w) {
                        Some(dm) => match demangled_class(dm) {
                            Some(c) => c,
                            None => w,
                        },
                        None => w,
                    }
                })
            },
        }
    }
}

/// The complete object locator at `ptr`: signature 0 or 1, offsets, and the
/// type and class hierarchy descriptors it points at, both inside the image.
#[verifier::opaque]
pub open spec fn spec_parse_locator(v: ImageView, ptr: u64) -> Option<CompleteObjectLocator> {
    match (
        spec_read_u32(v, ptr),
        spec_read_u32(v, ptr.wrapping_add(4)),
        spec_read_u32(v, ptr.wrapping_add(8)),
        spec_read_u32(v, ptr.wrapping_add(12)),
        spec_read_u32(v, ptr.wrapping_add(16)),
    ) {
        (Some(sig), Some(offset), Some(cd_offset), Some(tdr), Some(cdr)) => if sig > 1 {
            None
        } else {
            match (spec_follow_rva(v, tdr), spec_follow_rva(v, cdr)) {
                (Some(td), Some(cd)) => if !spec_contains(v, td) || !spec_contains(v, cd) {
                    None
                } else {
                    Some(CompleteObjectLocator { address: ptr, offset, cd_offset, type_descriptor: td, class_descriptor: cd })
                },
                _ => None,
            }
        },
        _ => None,
    }
}

/// The base class descriptor at `addr`.
pub open spec fn spec_base_descriptor(v: ImageView, addr: u64) -> Option<BaseView> {
    match (
        spec_read_u32(v, addr),
        spec_read_u32(v, addr.wrapping_add(4)),
        spec_read_u32(v, addr.wrapping_add(8)),
        spec_read_u32(v, addr.wrapping_add(12)),
        spec_read_u32(v, addr.wrapping_add(16)),
        spec_read_u32(v, addr.wrapping_add(20)),
    ) {
        (Some(tdr), Some(ncb), Some(m), Some(p), Some(vd), Some(attr)) => match spec_follow_rva(v, tdr) {
            None => None,
            Some(td) => match spec_type_name(v, td) {
                None => None,
                Some(name) => Some((name, BaseClassModel::Msvc {
                    attributes: attr,
                    displacement: Pmd { mdisp: m as i32, pdisp: p as i32, vdisp: vd as i32 },
                    num_contained_bases: ncb,
                })),
            },
        },
        _ => None,
    }
}

/// Entries `index` to `count` of a base class array at `array`: `None` as
/// soon as an entry cannot be read or resolved; entries whose descriptor
/// cannot be read are left out.
pub open spec fn spec_bases_from(v: ImageView, array: u64, count: u32, index: u32) -> Option<Seq<BaseView>>
    decreases count - index,
{
    if index >= count {
        Some(Seq::empty())
    } else {
        match spec_read_u32(v, array.wrapping_add((index as u64).wrapping_mul(4))) {
            None => None,
            Some(drva) => match spec_follow_rva(v, drva) {
                None => None,
                Some(dva) => match spec_bases_from(v, array, count, (index + 1) as u32) {
                    None => None,
                    Some(rest) => Some(match spec_base_descriptor(v, dva) {
                        Some(b) => seq![b] + rest,
                        None => rest,
                    }),
                },
            },
        }
    }
}

/// The class hierarchy descriptor at `cd`: its attributes and base classes
/// (the class itself first).
pub open spec fn spec_class_hierarchy(v: ImageView, cd: u64) -> Option<(u32, Seq<BaseView>)> {
    match (
        spec_read_u32(v, cd),
        spec_read_u32(v, cd.wrapping_add(4)),
        spec_read_u32(v, cd.wrapping_add(8)),
        spec_read_u32(v, cd.wrapping_add(12)),
    ) {
        (Some(sig), Some(attr), Some(count), Some(arr)) => if sig > 1 {
            None
        } else if count == 0 {
            Some((attr, Seq::empty()))
        } else {
            match spec_follow_rva(v, arr) {
                None => None,
                Some(array) => match spec_bases_from(v, array, count, 0) {
                    None => None,
                    Some(b) => Some((attr, b)),
                },
            }
        },
        _ => None,
    }
}

/// The slots of the vtable at `va`, from slot `k` on: up to the first that
/// cannot be read, is zero or is not in code, and at most 1024 in all.
pub open spec fn spec_collect_methods(v: ImageView, va: u64, k: int) -> Seq<u64>
    decreases MAX_VTABLE_METHODS - k,
{
    if k < 0 || k >= MAX_VTABLE_METHODS {
        Seq::empty()
    } else {
        match spec_read_u64(v, va) {
            None => Seq::empty(),
            Some(m) => if m == 0 || !spec_is_exec_addr(v, m) {
                Seq::empty()
            } else {
                seq![m] + spec_collect_methods(v, va.wrapping_add(8), k + 1)
            },
        }
    }
}

/// The vtable at `va` described by `loc`.
#[verifier::opaque]
pub open spec fn spec_msvc_vtable(v: ImageView, va: u64, loc: CompleteObjectLocator) -> Option<VTableView> {
    match spec_type_name(v, loc.type_descriptor) {
        None => None,
        Some(name) => match spec_class_hierarchy(v, loc.class_descriptor) {
            None => None,
            Some((attr, bases)) => Some((
                name,
                va,
                spec_collect_methods(v, va, 0),
                if bases.len() > 0 { bases.drop_first() } else { bases },
                VTableModel::Msvc {
                    complete_object_locator: loc.address,
                    offset: loc.offset,
                    constructor_displacement: loc.cd_offset,
                    class_attributes: attr,
                },
            )),
        },
    }
}

/// Reads MSVC RTTI from an image.
pub struct MsvcParser<'a> {
    pub view: &'a ImageView,
}

fn trim_leading_dots(s: &str) -> (r: &str)
    ensures
        r@ == trim_dots(s@),
{
    let n = s.unicode_len();
    let mut i: usize = 0;
    proof {
        assert(s@.skip(0) == s@);
    }
    while i < n && s.get_char(i) == '.'
        invariant
            n == s@.len(),
            i <= n,
            trim_dots(s@) == trim_dots(s@.skip(i as int)),
        decreases n - i,
    {
        proof {
            assert(s@.skip(i as int).drop_first() =~= s@.skip(i + 1));
        }
        i = i + 1;
    }
    proof {
        assert(s@.skip(i as int) =~= s@.subrange(i as int, n as int));
    }
    s.substring_char(i, n)
}

fn class_of_demangled(dm: &str) -> (r: Option<&str>)
    ensures
        match r {
            Some(c) => demangled_class(dm@) == Some(c@),
            None => demangled_class(dm@) is None,
        },
{
    let n = dm.unicode_len();
    let mut i: usize = 0;
    while i < n && dm.get_char(i) != ' '
        invariant
            n == dm@.len(),
            i <= n,
            first_index_of(dm@, ' ', 0) == first_index_of(dm@, ' ', i as int),
        decreases n - i,
    {
        i = i + 1;
    }
    if i == n {
        return None;
    }
    let rest = dm.substring_char(i + 1, n);
    let m = rest.unicode_len();
    assert(rest@ =~= dm@.skip(i + 1));
    if m < 2 {
        return None;
    }
    let mut j: usize = m - 1;
    while j > 0 && !(rest.get_char(j - 1) == ':' && rest.get_char(j) == ':')
        invariant
            m == rest@.len(),
            m >= 2,
            j <= m - 1,
            last_double_colon(rest@, m - 2) == last_double_colon(rest@, j - 1),
        decreases j,
    {
        j = j - 1;
    }
    if j == 0 {
        return None;
    }
    Some(rest.substring_char(0, j - 1))
}

impl<'a> MsvcParser<'a> {
    pub fn new(view: &'a ImageView) -> (r: Self)
        ensures
            r.view == view,
    {
        MsvcParser { view }
    }

    /// The class name of the type descriptor at `type_descriptor`.
    pub fn get_type_name(&self, type_descriptor: u64) -> (r: Option<String>)
        ensures
            match spec_type_name(*self.view, type_descriptor) {
                Some(n) => r matches Some(s) && s@ == n,
                None => r is None,
            },
    {
        let name_va = type_descriptor.checked_add(16)?;
        let raw = self.view.read_c_string(name_va)?;
        let trimmed = trim_leading_dots(raw.as_str());
        let mut wrapped = "??_R0".to_owned();
        wrapped.append(trimmed);
        wrapped.append("@8");
        if wrapped.as_str().unicode_len() > MAX_DEMANGLE_INPUT || !is_demangle_safe(wrapped.as_str().as_bytes()) {
            return Some(wrapped);
        }
        match msvc_demangle(wrapped.as_str()) {
            Some(dm) => match class_of_demangled(dm.as_str()) {
                Some(c) => Some(c.to_owned()),
                None => Some(wrapped),
            },
            None => Some(wrapped),
        }
    }

    /// The complete object locator at `locator_ptr`, if one is there.
    pub fn parse_locator(&self, locator_ptr: u64) -> (r: Option<CompleteObjectLocator>)
        ensures
            r == spec_parse_locator(*self.view, locator_ptr),
    {
        reveal(spec_parse_locator);
        let sig = self.view.read_u32(locator_ptr)?;
        if sig > 1 {
            return None;
        }
        let offset = self.view.read_u32(locator_ptr.wrapping_add(4))?;
        let cd_offset = self.view.read_u32(locator_ptr.wrapping_add(8))?;
        let tdr = self.view.read_u32(locator_ptr.wrapping_add(12))?;
        let cdr = self.view.read_u32(locator_ptr.wrapping_add(16))?;
        let td = self.view.follow_rva(tdr)?;
        let cd = self.view.follow_rva(cdr)?;
        if !self.view.contains(td) || !self.view.contains(cd) {
            return None;
        }
        Some(CompleteObjectLocator { address: locator_ptr, offset, cd_offset, type_descriptor: td, class_descriptor: cd })
    }
}


impl<'a> MsvcParser<'a> {
    /// The base class descriptor at `addr`.
    fn parse_base_descriptor(&self, addr: u64) -> (r: Option<BaseClassInfo>)
        ensures
            match spec_base_descriptor(*self.view, addr) {
                Some(b) => r matches Some(x) && crate::vtable::base_view(x) == b,
                None => r is None,
            },
    {
        let tdr = self.view.read_u32(addr)?;
        let ncb = self.view.read_u32(addr.wrapping_add(4))?;
        let m = self.view.read_u32(addr.wrapping_add(8))?;
        let p = self.view.read_u32(addr.wrapping_add(12))?;
        let vd = self.view.read_u32(addr.wrapping_add(16))?;
        let attr = self.view.read_u32(addr.wrapping_add(20))?;
        let td = self.view.follow_rva(tdr)?;
        let name = self.get_type_name(td)?;
        Some(BaseClassInfo {
            class_name: name,
            details: BaseClassModel::Msvc {
                attributes: attr,
                displacement: Pmd { mdisp: m as i32, pdisp: p as i32, vdisp: vd as i32 },
                num_contained_bases: ncb,
            },
        })
    }

    /// Entries `index` to `count` of the base class array at `array`.
    fn bases_from(&self, array: u64, count: u32, index: u32) -> (r: Option<Vec<BaseClassInfo>>)
        ensures
            match spec_bases_from(*self.view, array, count, index) {
                Some(b) => r matches Some(v) && bases_view(v@) == b,
                None => r is None,
            },
        decreases count - index,
    {
        if index >= count {
            proof {
                assert(bases_view(Seq::<BaseClassInfo>::empty()) =~= Seq::<BaseView>::empty());
            }
            return Some(Vec::new());
        }
        let drva = self.view.read_u32(array.wrapping_add((index as u64).wrapping_mul(4)))?;
        let dva = self.view.follow_rva(drva)?;
        let mut rest = self.bases_from(array, count, index + 1)?;
        match self.parse_base_descriptor(dva) {
            Some(b) => {
                let ghost before = rest@;
                rest.insert(0, b);
                proof {
                    assert(bases_view(rest@) =~= seq![crate::vtable::base_view(b)] + bases_view(before));
                }
            },
            None => {},
        }
        Some(rest)
    }

    /// The base classes listed by the class hierarchy descriptor at `cd`
    /// (the class itself first), with its attributes.
    fn get_class_hierarchy(&self, cd: u64) -> (r: Option<(u32, Vec<BaseClassInfo>)>)
        ensures
            match spec_class_hierarchy(*self.view, cd) {
                Some((attr, b)) => r matches Some((a, v)) && a == attr && bases_view(v@) == b,
                None => r is None,
            },
    {
        let sig = self.view.read_u32(cd)?;
        let attr = self.view.read_u32(cd.wrapping_add(4))?;
        let count = self.view.read_u32(cd.wrapping_add(8))?;
        let arr = self.view.read_u32(cd.wrapping_add(12))?;
        if sig > 1 {
            return None;
        }
        if count == 0 {
            proof {
                assert(bases_view(Seq::<BaseClassInfo>::empty()) =~= Seq::<BaseView>::empty());
            }
            return Some((attr, Vec::new()));
        }
        let array = self.view.follow_rva(arr)?;
        let bases = self.bases_from(array, count, 0)?;
        Some((attr, bases))
    }

    /// The slots of the vtable at `vtable_va`.
    fn collect_methods(&self, vtable_va: u64) -> (r: Vec<u64>)
        ensures
            r@ == spec_collect_methods(*self.view, vtable_va, 0),
    {
        collect_methods(self.view, vtable_va)
    }

    /// The vtable at `vtable_va` that `locator` describes.
    pub fn build_vtable_info(&self, vtable_va: u64, locator: &CompleteObjectLocator) -> (r: Option<VTableInfo>)
        ensures
            match spec_msvc_vtable(*self.view, vtable_va, *locator) {
                Some(t) => r matches Some(x) && vtable_view(x) == t,
                None => r is None,
            },
    {
        reveal(spec_msvc_vtable);
        let name = self.get_type_name(locator.type_descriptor)?;
        let (attr, mut bases) = self.get_class_hierarchy(locator.class_descriptor)?;
        let ghost all = bases_view(bases@);
        if bases.len() > 0 {
            bases.remove(0);
            proof {
                assert(bases_view(bases@) =~= all.drop_first());
            }
        }
        let methods = self.collect_methods(vtable_va);
        Some(VTableInfo {
            class_name: name,
            vtable_address: vtable_va,
            methods,
            bases,
            model: VTableModel::Msvc {
                complete_object_locator: locator.address,
                offset: locator.offset,
                constructor_displacement: locator.cd_offset,
                class_attributes: attr,
            },
        })
    }
}

/// The slots of the vtable at `vtable_va` in `view`.
pub fn collect_methods(view: &ImageView, vtable_va: u64) -> (r: Vec<u64>)
    ensures
        r@ == spec_collect_methods(*view, vtable_va, 0),
{
    let mut methods: Vec<u64> = Vec::new();
    let mut va = vtable_va;
    let mut k: usize = 0;
    while k < MAX_VTABLE_METHODS
        invariant
            k <= MAX_VTABLE_METHODS,
            spec_collect_methods(*view, vtable_va, 0) == methods@ + spec_collect_methods(*view, va, k as int),
        ensures
            spec_collect_methods(*view, vtable_va, 0) == methods@ + spec_collect_methods(*view, va, k as int),
            spec_collect_methods(*view, va, k as int) == Seq::<u64>::empty(),
        decreases MAX_VTABLE_METHODS - k,
    {
        let m = match view.read_u64(va) {
            Some(m) => m,
            None => {
                break;
            },
        };
        if m == 0 || !view.is_executable(m) {
            break;
        }
        let ghost before = methods@;
        methods.push(m);
        proof {
            assert(before + (seq![m] + spec_collect_methods(*view, va.wrapping_add(8), k + 1))
                =~= methods@ + spec_collect_methods(*view, va.wrapping_add(8), k + 1));
        }
        va = va.wrapping_add(8);
        k = k + 1;
    }
    proof {
        assert(methods@ + Seq::<u64>::empty() =~= methods@);
    }
    methods
}


/// The section name marks a section that may hold vtables: its ASCII
/// lowercase contains `.rdata` or `.data`.
pub open spec fn msvc_candidate(name: Option<String>) -> bool {
    match name {
        Some(n) => contains_chars(n@.map_values(|c: char| ascii_lower(c)), ".rdata"@)
            || contains_chars(n@.map_values(|c: char| ascii_lower(c)), ".data"@),
        None => false,
    }
}

/// The pair of the slot at `at`, if it points at a complete object locator.
pub open spec fn slot_pairs(v: ImageView, at: u64) -> Seq<(u64, CompleteObjectLocator)> {
    let lp = match spec_read_u64(v, at) {
        Some(p) => p,
        None => 0,
    };
    if lp != 0 {
        match spec_parse_locator(v, lp) {
            Some(loc) => seq![(at.wrapping_add(8), loc)],
            None => Seq::empty(),
        }
    } else {
        Seq::empty()
    }
}

/// The (vtable address, locator) pairs of section `i`, from byte `offset`
/// on in steps of 8: each slot that points at a complete object locator
/// gives a vtable just after it.
pub open spec fn msvc_slots(v: ImageView, i: int, offset: int) -> Seq<(u64, CompleteObjectLocator)>
    decreases v.sections@[i].data@.len() - offset,
{
    let s = v.sections@[i];
    if offset < 0 || offset + 8 > s.data@.len() {
        Seq::empty()
    } else {
        slot_pairs(v, s.address.wrapping_add(offset as u64)) + msvc_slots(v, i, offset + 8)
    }
}

/// The pairs of the candidate sections from `i` on.
pub open spec fn msvc_candidates(v: ImageView, i: int) -> Seq<(u64, CompleteObjectLocator)>
    decreases v.sections@.len() - i,
{
    if i < 0 || i >= v.sections@.len() {
        Seq::empty()
    } else {
        (if msvc_candidate(v.sections@[i].name) { msvc_slots(v, i, 0) } else { Seq::empty() }) + msvc_candidates(v, i + 1)
    }
}

/// The vtables of the pairs, skipping addresses already seen.
pub open spec fn msvc_collect(v: ImageView, cands: Seq<(u64, CompleteObjectLocator)>, seen: Set<u64>) -> Seq<VTableView>
    decreases cands.len(),
{
    if cands.len() == 0 {
        Seq::empty()
    } else {
        let (va, loc) = cands[0];
        if seen.contains(va) {
            msvc_collect(v, cands.drop_first(), seen)
        } else {
            (match spec_msvc_vtable(v, va, loc) {
                Some(t) => seq![t],
                None => Seq::empty(),
            }) + msvc_collect(v, cands.drop_first(), seen.insert(va))
        }
    }
}

/// The vtables of an image, in the order they are found.
pub open spec fn spec_msvc_vtables(v: ImageView) -> Seq<VTableView> {
    msvc_collect(v, msvc_candidates(v, 0), Set::empty())
}

fn section_name_is_candidate(name: &Option<String>) -> (r: bool)
    ensures
        r == msvc_candidate(*name),
{
    match name {
        Some(n) => {
            let lower = ascii_lowercase(n.as_str());
            str_contains(lower.as_str(), ".rdata") || str_contains(lower.as_str(), ".data")
        },
        None => false,
    }
}

impl<'a> MsvcParser<'a> {
    /// The vtables described by the complete object locators that the
    /// image's data sections point at, sorted by address.
    pub fn parse(&self) -> (r: Vec<VTableInfo>)
        ensures
            crate::vtable::vtables_view_of(r@) == crate::vsort::sort_views_by_address(spec_msvc_vtables(*self.view)),
    {
        let mut results: Vec<VTableInfo> = Vec::new();
        let mut seen: crate::store::U64Store<bool> = crate::store::U64Store::new();
        let ghost all = msvc_candidates(*self.view, 0);
        let mut i: usize = 0;
        while i < self.view.sections.len()
            invariant
                seen.wf(),
                i <= self.view.sections@.len(),
                all == msvc_candidates(*self.view, 0),
                msvc_collect(*self.view, all, Set::empty())
                    == crate::vtable::vtables_view_of(results@) + msvc_collect(*self.view, msvc_candidates(*self.view, i as int), seen.view().dom()),
            decreases self.view.sections@.len() - i,
        {
            let ghost rest = msvc_candidates(*self.view, i + 1);
            if section_name_is_candidate(&self.view.sections[i].name) {
                let address = self.view.sections[i].address;
                let len = self.view.sections[i].data.len();
                let mut offset: usize = 0;
                while len >= 8 && offset <= len - 8
                    invariant
                        seen.wf(),
                        i < self.view.sections@.len(),
                        len == self.view.sections@[i as int].data@.len(),
                        offset <= len,
                        address == self.view.sections@[i as int].address,
                        msvc_collect(*self.view, all, Set::empty())
                            == crate::vtable::vtables_view_of(results@)
                                + msvc_collect(*self.view, msvc_slots(*self.view, i as int, offset as int) + rest, seen.view().dom()),
                    decreases len - offset,
                {
                    let at = address.wrapping_add(offset as u64);
                    let ghost tail = msvc_slots(*self.view, i as int, offset + 8) + rest;
                    proof {
                        assert(msvc_slots(*self.view, i as int, offset as int) + rest =~= slot_pairs(*self.view, at) + tail);
                    }
                    self.scan_slot(at, &mut seen, &mut results, Ghost(tail));
                    offset = offset + 8;
                }
                proof {
                    assert(msvc_slots(*self.view, i as int, offset as int) + rest =~= rest);
                }
            } else {
                proof {
                    assert(Seq::<(u64, CompleteObjectLocator)>::empty() + rest =~= rest);
                }
            }
            i = i + 1;
        }
        proof {
            assert(crate::vtable::vtables_view_of(results@) + Seq::<VTableView>::empty() =~= crate::vtable::vtables_view_of(results@));
        }
        crate::vsort::sort_vtables_by_address(&mut results);
        results
    }
}


impl<'a> MsvcParser<'a> {
    /// Records the vtable of the slot at `at`, unless its address was seen.
    fn scan_slot(
        &self,
        at: u64,
        seen: &mut crate::store::U64Store<bool>,
        results: &mut Vec<VTableInfo>,
        Ghost(tail): Ghost<Seq<(u64, CompleteObjectLocator)>>,
    )
        requires
            old(seen).wf(),
        ensures
            final(seen).wf(),
            crate::vtable::vtables_view_of(old(results)@) + msvc_collect(*self.view, slot_pairs(*self.view, at) + tail, old(seen).view().dom())
                == crate::vtable::vtables_view_of(final(results)@) + msvc_collect(*self.view, tail, final(seen).view().dom()),
    {
        let lp = match self.view.read_u64(at) {
            Some(p) => p,
            None => 0,
        };
        if lp == 0 {
            proof {
                assert(slot_pairs(*self.view, at) + tail =~= tail);
            }
            return;
        }
        let loc = match self.parse_locator(lp) {
            Some(l) => l,
            None => {
                proof {
                    assert(slot_pairs(*self.view, at) + tail =~= tail);
                }
                return;
            },
        };
        let va = at.wrapping_add(8);
        proof {
            assert(slot_pairs(*self.view, at) + tail =~= seq![(va, loc)] + tail);
            assert((seq![(va, loc)] + tail).drop_first() =~= tail);
            assert((seq![(va, loc)] + tail)[0] == (va, loc));
        }
        if seen.contains_key(va) {
            return;
        }
        let ghost seen_before = seen.view().dom();
        let ghost before = results@;
        seen.insert(va, true);
        proof {
            assert(seen.view().dom() =~= seen_before.insert(va));
        }
        match self.build_vtable_info(va, &loc) {
            Some(info) => {
                results.push(info);
                proof {
                    assert(crate::vtable::vtables_view_of(results@) =~= crate::vtable::vtables_view_of(before).push(vtable_view(info)));
                    assert(crate::vtable::vtables_view_of(before) + (seq![vtable_view(info)] + msvc_collect(*self.view, tail, seen.view().dom()))
                        =~= crate::vtable::vtables_view_of(results@) + msvc_collect(*self.view, tail, seen.view().dom()));
                }
            },
            None => {
                proof {
                    assert(Seq::<VTableView>::empty() + msvc_collect(*self.view, tail, seen.view().dom())
                        =~= msvc_collect(*self.view, tail, seen.view().dom()));
                }
            },
        }
    }
}

} // verus!
