//! Modules of the running process and the sections of a module image in
//! memory.
use vstd::prelude::*;

use crate::error::S2Error;
use crate::objfile::{read_section_table, object_section_table, SectionRecord};
use crate::sections::{is_executable, spec_is_executable};
use crate::text::{
    char_byte, char_bytes, is_unicode_whitespace, is_whitespace_char, parse_radix16,
    parse_radix16_range, split_on, string_from_chars, whitespace_tokens, lemma_split_prefix_pieces,
};

verus! {

/// A module loaded in the process: its name and the address range
/// `[base, end)` that it occupies.
#[derive(Debug, Clone)]
pub struct ModuleEntry {
    pub name: String,
    pub base: u64,
    pub end: u64,
}

/// The first module whose range holds `ptr`, as (name, base).
pub open spec fn spec_module_from_pointer(modules: Seq<ModuleEntry>, ptr: u64) -> Option<(Seq<char>, u64)>
    decreases modules.len(),
{
    if modules.len() == 0 {
        None
    } else if modules[0].base <= ptr && ptr < modules[0].end {
        Some((modules[0].name@, modules[0].base))
    } else {
        spec_module_from_pointer(modules.drop_first(), ptr)
    }
}

/// Name and base address of the first module, in the order given, whose
/// address range holds `ptr`.
pub fn module_from_pointer(modules: &[ModuleEntry], ptr: u64) -> (r: Option<(String, u64)>)
    ensures
        match spec_module_from_pointer(modules@, ptr) {
            Some((name, base)) => r is Some && r.unwrap().0@ == name && r.unwrap().1 == base,
            None => r is None,
        },
{
    let mut i: usize = 0;
    proof {
        assert(modules@.skip(0) == modules@);
    }
    while i < modules.len()
        invariant
            i <= modules@.len(),
            spec_module_from_pointer(modules@, ptr) == spec_module_from_pointer(modules@.skip(i as int), ptr),
        decreases modules@.len() - i,
    {
        proof {
            assert(modules@.skip(i as int).drop_first() =~= modules@.skip(i + 1));
            assert(modules@.skip(i as int)[0] == modules@[i as int]);
        }
        let m = &modules[i];
        if m.base <= ptr && ptr < m.end {
            return Some((m.name.clone(), m.base));
        }
        i = i + 1;
    }
    None
}

/// Base address of the module that holds `ptr`, or 0 when none does.
pub fn get_module_base_from_pointer(modules: &[ModuleEntry], ptr: u64) -> (r: u64)
    ensures
        match spec_module_from_pointer(modules@, ptr) {
            Some((_, base)) => r == base,
            None => r == 0,
        },
{
    match module_from_pointer(modules, ptr) {
        Some((_, base)) => base,
        None => 0,
    }
}

/// Start and end (exclusive) of each whitespace-separated token of `chars`.
pub fn whitespace_token_bounds(chars: &[char]) -> (r: Vec<(usize, usize)>)
    ensures
        r@.len() == whitespace_tokens(chars@).len(),
        forall|k: int| 0 <= k < r@.len() ==> (#[trigger] r@[k]).0 <= r@[k].1 <= chars@.len()
            && chars@.subrange(r@[k].0 as int, r@[k].1 as int) == whitespace_tokens(chars@)[k],
{
    let mut bounds: Vec<(usize, usize)> = Vec::new();
    let mut in_token = false;
    let mut i: usize = 0;
    proof {
        assert(chars@.take(0) =~= Seq::<char>::empty());
    }
    while i < chars.len()
        invariant
            i <= chars@.len(),
            bounds@.len() == whitespace_tokens(chars@.take(i as int)).len(),
            forall|k: int| 0 <= k < bounds@.len() ==> (#[trigger] bounds@[k]).0 <= bounds@[k].1 <= i
                && chars@.subrange(bounds@[k].0 as int, bounds@[k].1 as int) == whitespace_tokens(chars@.take(i as int))[k],
            in_token == (i > 0 && !is_unicode_whitespace(chars@[i - 1])),
            in_token ==> bounds@.len() > 0 && bounds@.last().1 == i,
        decreases chars@.len() - i,
    {
        let c = chars[i];
        let ghost p = whitespace_tokens(chars@.take(i as int));
        proof {
            assert(chars@.take(i + 1).drop_last() == chars@.take(i as int));
            assert(chars@.take(i + 1).last() == c);
        }
        if is_whitespace_char(c) {
            in_token = false;
            proof {
                assert(whitespace_tokens(chars@.take(i + 1)) == p);
            }
        } else if in_token {
            let last = bounds.len() - 1;
            let (st, _) = bounds[last];
            let ghost ob = bounds@;
            bounds.set(last, (st, i + 1));
            proof {
                assert(chars@.take(i + 1)[i - 1] == chars@[i - 1]);
                let np = p.update(p.len() - 1, p.last().push(c));
                assert(whitespace_tokens(chars@.take(i + 1)) == np);
                assert(chars@.subrange(st as int, i + 1) == chars@.subrange(st as int, i as int).push(c));
                assert(ob[last as int] == (st, i));
                assert(chars@.subrange(st as int, i as int) == p[last as int]);
                assert forall|k: int| 0 <= k < bounds@.len() implies (#[trigger] bounds@[k]).0 <= bounds@[k].1 <= i + 1
                    && chars@.subrange(bounds@[k].0 as int, bounds@[k].1 as int) == np[k] by {
                    if k < last {
                        assert(bounds@[k] == ob[k]);
                        assert(np[k] == p[k]);
                    } else {
                        assert(bounds@[k] == (st, (i + 1) as usize));
                    }
                }
            }
        } else {
            bounds.push((i, i + 1));
            in_token = true;
            proof {
                if i > 0 {
                    assert(chars@.take(i + 1)[i - 1] == chars@[i - 1]);
                }
                assert(whitespace_tokens(chars@.take(i + 1)) == p.push(seq![c]));
                assert(chars@.subrange(i as int, i + 1) =~= seq![c]);
            }
        }
        i = i + 1;
    }
    proof {
        assert(chars@.take(i as int) == chars@);
    }
    bounds
}

/// The module entry that one line of `/proc/self/maps` describes: the first
/// token is `start-end` in hexadecimal, the sixth token (if any) the path.
pub open spec fn spec_maps_line_entry(line: Seq<char>) -> Option<(Seq<char>, u64, u64)> {
    let t = whitespace_tokens(line);
    if t.len() == 0 {
        None
    } else {
        let pieces = split_on(char_bytes(t[0]), 0x2D);
        if pieces.len() < 2 {
            None
        } else {
            match (parse_radix16(pieces[0], 0xFFFF_FFFF_FFFF_FFFF), parse_radix16(pieces[1], 0xFFFF_FFFF_FFFF_FFFF)) {
                (Some(start), Some(end)) => Some(
                    (if t.len() >= 6 { t[5] } else { Seq::<char>::empty() }, start as u64, end as u64),
                ),
                _ => None,
            }
        }
    }
}

proof fn lemma_split_no_sep(s: Seq<u8>, sep: u8)
    requires
        forall|i: int| 0 <= i < s.len() ==> s[i] != sep,
    ensures
        split_on(s, sep) == seq![s],
    decreases s.len(),
{
    if s.len() > 0 {
        assert forall|i: int| 0 <= i < s.drop_last().len() implies s.drop_last()[i] != sep by {
            assert(s.drop_last()[i] == s[i]);
        }
        lemma_split_no_sep(s.drop_last(), sep);
        assert(s.last() != sep);
        assert(s.drop_last().push(s.last()) =~= s);
        assert(seq![s.drop_last()].update(0, s.drop_last().push(s.last())) =~= seq![s]);
    } else {
        assert(s =~= Seq::<u8>::empty());
    }
}

proof fn lemma_split_after_sep(a: Seq<u8>, b: Seq<u8>, sep: u8)
    requires
        forall|i: int| 0 <= i < b.len() ==> b[i] != sep,
    ensures
        split_on(a.push(sep) + b, sep) == split_on(a, sep).push(b),
    decreases b.len(),
{
    let s = a.push(sep) + b;
    if b.len() == 0 {
        assert(s =~= a.push(sep));
        assert(s.drop_last() =~= a);
        assert(b =~= Seq::<u8>::empty());
    } else {
        assert forall|i: int| 0 <= i < b.drop_last().len() implies b.drop_last()[i] != sep by {
            assert(b.drop_last()[i] == b[i]);
        }
        assert(b.last() != sep);
        lemma_split_after_sep(a, b.drop_last(), sep);
        assert(s.drop_last() =~= a.push(sep) + b.drop_last());
        assert(s.last() == b.last());
        let prev = split_on(a, sep).push(b.drop_last());
        assert(split_on(s.drop_last(), sep) == prev);
        assert(prev.last() == b.drop_last());
        assert(b.drop_last().push(b.last()) =~= b);
        assert(prev.update(prev.len() - 1, prev.last().push(s.last())) =~= split_on(a, sep).push(b));
    }
}

/// Position of the first byte `sep` in `b[lo..hi]`, or `hi`.
fn find_byte(b: &Vec<u8>, lo: usize, hi: usize, sep: u8) -> (r: usize)
    requires
        lo <= hi <= b@.len(),
    ensures
        lo <= r <= hi,
        r < hi ==> b@[r as int] == sep,
        forall|i: int| lo <= i < r ==> b@[i] != sep,
{
    let mut i = lo;
    while i < hi && b[i] != sep
        invariant
            lo <= i <= hi <= b@.len(),
            forall|j: int| lo <= j < i ==> b@[j] != sep,
        decreases hi - i,
    {
        i = i + 1;
    }
    i
}

/// Reads one line of `/proc/self/maps` as a module entry; `None` when its
/// address range does not parse.
pub fn parse_maps_line(line: &[char]) -> (r: Option<ModuleEntry>)
    ensures
        match spec_maps_line_entry(line@) {
            Some((name, base, end)) => r is Some && r.unwrap().name@ == name && r.unwrap().base == base
                && r.unwrap().end == end,
            None => r is None,
        },
{
    let bounds = whitespace_token_bounds(line);
    if bounds.len() == 0 {
        return None;
    }
    let (s0, e0) = bounds[0];
    let ghost t0 = line@.subrange(s0 as int, e0 as int);
    let mut rb: Vec<u8> = Vec::new();
    let mut i = s0;
    while i < e0
        invariant
            s0 <= i <= e0 <= line@.len(),
            rb@ == char_bytes(line@.subrange(s0 as int, i as int)),
        decreases e0 - i,
    {
        let c = line[i];
        let v = c as u32;
        let byte: u8 = if v < 0x80 { v as u8 } else { 0xFF };
        proof {
            assert((v < 0x80) ==> (v as u8) == ((c as u32) as u8));
        }
        proof {
            assert(byte == char_byte(c));
            assert(line@.subrange(s0 as int, i + 1) == line@.subrange(s0 as int, i as int).push(c));
        }
        rb.push(byte);
        i = i + 1;
    }
    let ghost bs = rb@;
    assert(bs == char_bytes(t0));
    let d1 = find_byte(&rb, 0, rb.len(), 0x2D);
    proof {
        if d1 == rb.len() {
            lemma_split_no_sep(bs, 0x2D);
        }
    }
    if d1 == rb.len() {
        return None;
    }
    let d2 = find_byte(&rb, d1 + 1, rb.len(), 0x2D);
    proof {
        let a = bs.take(d1 as int);
        let mid = bs.subrange(d1 + 1, d2 as int);
        lemma_split_no_sep(a, 0x2D);
        lemma_split_after_sep(a, mid, 0x2D);
        let pre = bs.take(d2 as int);
        assert(pre =~= a.push(0x2Du8) + mid);
        assert(split_on(pre, 0x2D) == seq![a, mid]);
        if d2 == rb.len() {
            assert(pre == bs);
        } else {
            assert(bs.take(d2 + 1).drop_last() == pre);
            assert(bs.take(d2 + 1).last() == 0x2Du8);
            assert(split_on(bs.take(d2 + 1), 0x2D) == seq![a, mid].push(Seq::<u8>::empty()));
            lemma_split_prefix_pieces(bs, d2 + 1, 0x2D);
            assert(split_on(bs.take(d2 + 1), 0x2D)[0] == split_on(bs, 0x2D)[0]);
            assert(split_on(bs.take(d2 + 1), 0x2D)[1] == split_on(bs, 0x2D)[1]);
        }
    }
    let start = parse_radix16_range(&rb, 0, d1, 0xFFFF_FFFF_FFFF_FFFF);
    let end = parse_radix16_range(&rb, d1 + 1, d2, 0xFFFF_FFFF_FFFF_FFFF);
    proof {
        assert(bs.subrange(0, d1 as int) == bs.take(d1 as int));
    }
    match (start, end) {
        (Some(st), Some(en)) => {
            let name = if bounds.len() >= 6 {
                let (s5, e5) = bounds[5];
                string_from_chars(vstd::slice::slice_subrange(line, s5, e5))
            } else {
                String::new()
            };
            Some(ModuleEntry { name, base: st, end: en })
        },
        _ => None,
    }
}

/// A section of a module image mapped in memory: where its bytes start in
/// the image, and how many of them the image holds.
#[derive(Debug, Clone)]
pub struct MemorySectionDescriptor {
    pub index: usize,
    pub name: Option<String>,
    pub address: u64,
    pub offset: usize,
    pub size: usize,
    pub executable: bool,
}

/// The descriptor of a section of an image of `data_len` bytes whose
/// preferred base is `image_base`, or `None` when the section has no bytes in
/// the image.
pub open spec fn section_descriptor(s: SectionRecord, data_len: nat, image_base: u64) -> Option<MemorySectionDescriptor> {
    let size: int = if s.size <= usize::MAX { s.size as int } else { 0 };
    let relative: u64 = if s.address >= image_base { (s.address - image_base) as u64 } else { s.address };
    if size == 0 || relative > usize::MAX || relative >= data_len {
        None
    } else {
        let available = data_len - relative;
        Some(MemorySectionDescriptor {
            index: s.index,
            name: s.name,
            address: s.address,
            offset: relative as usize,
            size: (if size < available { size } else { available }) as usize,
            executable: spec_is_executable(s.flags),
        })
    }
}

/// The descriptors of the sections that have bytes in the image, in table order.
pub open spec fn section_descriptors(secs: Seq<SectionRecord>, data_len: nat, image_base: u64) -> Seq<MemorySectionDescriptor>
    decreases secs.len(),
{
    if secs.len() == 0 {
        Seq::empty()
    } else {
        let prev = section_descriptors(secs.drop_last(), data_len, image_base);
        match section_descriptor(secs.last(), data_len, image_base) {
            Some(d) => prev.push(d),
            None => prev,
        }
    }
}

/// Descriptors are ordered by (address, index).
pub open spec fn descriptor_le(a: MemorySectionDescriptor, b: MemorySectionDescriptor) -> bool {
    a.address < b.address || (a.address == b.address && a.index <= b.index)
}

/// Stable insertion of `x` into `s`: after every element not above it.
pub open spec fn insert_sorted(s: Seq<MemorySectionDescriptor>, x: MemorySectionDescriptor) -> Seq<MemorySectionDescriptor>
    decreases s.len(),
{
    if s.len() == 0 {
        seq![x]
    } else if descriptor_le(s.last(), x) {
        s.push(x)
    } else {
        insert_sorted(s.drop_last(), x).push(s.last())
    }
}

/// The stable sort of `s` by (address, index).
pub open spec fn sort_descriptors(s: Seq<MemorySectionDescriptor>) -> Seq<MemorySectionDescriptor>
    decreases s.len(),
{
    if s.len() == 0 {
        Seq::empty()
    } else {
        insert_sorted(sort_descriptors(s.drop_last()), s.last())
    }
}

/// The sections of a module image, sorted by (address, index); a single
/// executable section covering the whole image when none has bytes in it.
pub open spec fn spec_module_sections(secs: Seq<SectionRecord>, data_len: nat, image_base: u64) -> Seq<MemorySectionDescriptor> {
    let d = section_descriptors(secs, data_len, image_base);
    if d.len() == 0 {
        seq![MemorySectionDescriptor {
            index: 0,
            name: None,
            address: image_base,
            offset: 0,
            size: data_len as usize,
            executable: true,
        }]
    } else {
        sort_descriptors(d)
    }
}

fn descriptor_for(s: &SectionRecord, data_len: usize, image_base: u64) -> (r: Option<MemorySectionDescriptor>)
    ensures
        r == section_descriptor(*s, data_len as nat, image_base),
{
    let size: usize = if s.size <= usize::MAX as u64 { s.size as usize } else { 0 };
    let relative: u64 = if s.address >= image_base { s.address - image_base } else { s.address };
    if size == 0 || relative > usize::MAX as u64 || relative >= data_len as u64 {
        return None;
    }
    let offset = relative as usize;
    let available = data_len - offset;
    let name = match &s.name {
        Some(n) => Some(n.clone()),
        None => None,
    };
    Some(MemorySectionDescriptor {
        index: s.index,
        name,
        address: s.address,
        offset,
        size: if size < available { size } else { available },
        executable: is_executable(s.flags),
    })
}

/// Inserts `x` into the sorted prefix `v[..]` after every element not above it.
fn insert_descriptor(v: &mut Vec<MemorySectionDescriptor>, x: MemorySectionDescriptor)
    ensures
        final(v)@ == insert_sorted(old(v)@, x),
    decreases old(v)@.len(),
{
    if v.len() == 0 {
        v.push(x);
        return;
    }
    let last = v.pop().unwrap();
    proof {
        assert(old(v)@.drop_last() == v@);
        assert(old(v)@.last() == last);
    }
    if last.address < x.address || (last.address == x.address && last.index <= x.index) {
        v.push(last);
        v.push(x);
        proof {
            assert(v@ =~= old(v)@.push(x));
        }
    } else {
        insert_descriptor(v, x);
        v.push(last);
    }
}

/// The sections of a module image held in `data` with preferred base
/// `image_base`: each section that has bytes in the image, clipped to the
/// image, sorted by (address, index); a single executable section covering
/// the image when there is none. An empty image has no sections.
pub fn module_sections_from_slice(data: &[u8], image_base: u64) -> (r: Result<Vec<MemorySectionDescriptor>, S2Error>)
    ensures
        data@.len() == 0 ==> (r matches Ok(v) && v@.len() == 0),
        data@.len() > 0 ==> match object_section_table(data@) {
            Some(t) => (r matches Ok(v) && v@ == spec_module_sections(t, data@.len(), image_base)),
            None => r == Err::<Vec<MemorySectionDescriptor>, S2Error>(S2Error::ObjectParse),
        },
{
    if data.len() == 0 {
        return Ok(Vec::new());
    }
    let secs = read_section_table(data)?;
    let ghost t = secs@;
    let mut found: Vec<MemorySectionDescriptor> = Vec::new();
    let mut i: usize = 0;
    proof {
        assert(t.take(0) =~= Seq::<SectionRecord>::empty());
    }
    while i < secs.len()
        invariant
            t == secs@,
            i <= t.len(),
            found@ == section_descriptors(t.take(i as int), data@.len(), image_base),
        decreases t.len() - i,
    {
        proof {
            assert(t.take(i + 1).drop_last() == t.take(i as int));
            assert(t.take(i + 1).last() == t[i as int]);
        }
        match descriptor_for(&secs[i], data.len(), image_base) {
            Some(d) => found.push(d),
            None => {},
        }
        i = i + 1;
    }
    proof {
        assert(t.take(i as int) == t);
    }
    if found.len() == 0 {
        let mut one: Vec<MemorySectionDescriptor> = Vec::new();
        one.push(MemorySectionDescriptor {
            index: 0,
            name: None,
            address: image_base,
            offset: 0,
            size: data.len(),
            executable: true,
        });
        proof {
            assert(one@ =~= spec_module_sections(t, data@.len(), image_base));
        }
        return Ok(one);
    }
    let ghost unsorted = found@;
    let mut sorted: Vec<MemorySectionDescriptor> = Vec::new();
    let mut j: usize = 0;
    let n = found.len();
    let mut rest = found;
    proof {
        assert(unsorted.take(0) =~= Seq::<MemorySectionDescriptor>::empty());
        assert(rest@ == unsorted.skip(0));
    }
    while j < n
        invariant
            n == unsorted.len(),
            j <= n,
            rest@ == unsorted.skip(j as int),
            sorted@ == sort_descriptors(unsorted.take(j as int)),
        decreases n - j,
    {
        let x = rest.remove(0);
        proof {
            assert(x == unsorted[j as int]);
            assert(unsorted.take(j + 1).drop_last() == unsorted.take(j as int));
            assert(unsorted.take(j + 1).last() == x);
            assert(rest@ == unsorted.skip(j + 1));
        }
        insert_descriptor(&mut sorted, x);
        j = j + 1;
    }
    proof {
        assert(unsorted.take(n as int) == unsorted);
    }
    Ok(sorted)
}


/// A descriptor's bytes lie within an image of `len` bytes.
pub open spec fn descriptor_in(d: MemorySectionDescriptor, len: nat) -> bool {
    d.offset + d.size <= len
}

/// Every descriptor of `s` lies within an image of `len` bytes.
pub open spec fn descriptors_in(s: Seq<MemorySectionDescriptor>, len: nat) -> bool {
    forall|i: int| 0 <= i < s.len() ==> descriptor_in(#[trigger] s[i], len)
}

proof fn lemma_section_descriptors_in(secs: Seq<SectionRecord>, len: nat, image_base: u64)
    ensures
        descriptors_in(section_descriptors(secs, len, image_base), len),
    decreases secs.len(),
{
    if secs.len() > 0 {
        lemma_section_descriptors_in(secs.drop_last(), len, image_base);
    }
}

proof fn lemma_insert_sorted_in(s: Seq<MemorySectionDescriptor>, x: MemorySectionDescriptor, len: nat)
    requires
        descriptors_in(s, len),
        descriptor_in(x, len),
    ensures
        descriptors_in(insert_sorted(s, x), len),
    decreases s.len(),
{
    if s.len() > 0 && !descriptor_le(s.last(), x) {
        lemma_insert_sorted_in(s.drop_last(), x, len);
    }
}

proof fn lemma_sort_descriptors_in(s: Seq<MemorySectionDescriptor>, len: nat)
    requires
        descriptors_in(s, len),
    ensures
        descriptors_in(sort_descriptors(s), len),
    decreases s.len(),
{
    if s.len() > 0 {
        lemma_sort_descriptors_in(s.drop_last(), len);
        lemma_insert_sorted_in(sort_descriptors(s.drop_last()), s.last(), len);
    }
}

/// The sections found in a module image lie within it.
pub proof fn lemma_module_sections_in(secs: Seq<SectionRecord>, len: nat, image_base: u64)
    requires
        len <= usize::MAX,
    ensures
        descriptors_in(spec_module_sections(secs, len, image_base), len),
{
    lemma_section_descriptors_in(secs, len, image_base);
    let d = section_descriptors(secs, len, image_base);
    if d.len() > 0 {
        lemma_sort_descriptors_in(d, len);
    }
}

/// The address range of the module file that holds `ptr`: the lowest base
/// and the highest end over all mappings with the name of the first module
/// whose range holds `ptr`.
pub open spec fn is_module_span(modules: Seq<ModuleEntry>, ptr: u64, r: Option<(u64, u64)>) -> bool {
    match spec_module_from_pointer(modules, ptr) {
        None => r is None,
        Some((name, _)) => r matches Some((base, end)) && {
            &&& exists|i: int| 0 <= i < modules.len() && modules[i].name@ == name && modules[i].base == base
            &&& exists|i: int| 0 <= i < modules.len() && modules[i].name@ == name && modules[i].end == end
            &&& forall|i: int| 0 <= i < modules.len() && (#[trigger] modules[i]).name@ == name
                ==> base <= modules[i].base && modules[i].end <= end
        },
    }
}

/// `spec_module_from_pointer` names a module of the list.
proof fn lemma_module_from_pointer_member(modules: Seq<ModuleEntry>, ptr: u64)
    ensures
        spec_module_from_pointer(modules, ptr) matches Some((name, _)) ==>
            exists|i: int| 0 <= i < modules.len() && modules[i].name@ == name && modules[i].base <= ptr && ptr < modules[i].end,
    decreases modules.len(),
{
    if modules.len() > 0 && !(modules[0].base <= ptr && ptr < modules[0].end) {
        lemma_module_from_pointer_member(modules.drop_first(), ptr);
        if let Some((name, _)) = spec_module_from_pointer(modules, ptr) {
            let i = choose|i: int| 0 <= i < modules.drop_first().len() && modules.drop_first()[i].name@ == name
                && modules.drop_first()[i].base <= ptr && ptr < modules.drop_first()[i].end;
            assert(modules[i + 1] == modules.drop_first()[i]);
        }
    }
}

/// The address range of the whole module file that holds `ptr` (all its
/// mappings taken together), or `None` when no module holds it.
pub fn module_span(modules: &[ModuleEntry], ptr: u64) -> (r: Option<(u64, u64)>)
    ensures
        is_module_span(modules@, ptr, r),
{
    let hit = match module_from_pointer(modules, ptr) {
        Some(h) => h,
        None => return None,
    };
    proof {
        lemma_module_from_pointer_member(modules@, ptr);
    }
    let ghost name = hit.0@;
    let mut base: u64 = u64::MAX;
    let mut end: u64 = 0;
    let mut found: bool = false;
    let mut i: usize = 0;
    while i < modules.len()
        invariant
            spec_module_from_pointer(modules@, ptr) matches Some((nm, _)) && nm == name,
            name == hit.0@,
            i <= modules@.len(),
            found ==> exists|k: int| 0 <= k < i && modules@[k].name@ == name && modules@[k].base == base,
            found ==> exists|k: int| 0 <= k < i && modules@[k].name@ == name && modules@[k].end == end,
            found == exists|k: int| 0 <= k < i && modules@[k].name@ == name,
            forall|k: int| 0 <= k < i && (#[trigger] modules@[k]).name@ == name
                ==> base <= modules@[k].base && modules@[k].end <= end,
        decreases modules@.len() - i,
    {
        let m = &modules[i];
        if crate::text::str_eq(m.name.as_str(), hit.0.as_str()) {
            if !found || m.base < base {
                base = m.base;
            }
            if !found || m.end > end {
                end = m.end;
            }
            found = true;
        }
        i = i + 1;
    }
    proof {
        let k = choose|k: int| 0 <= k < modules@.len() && modules@[k].name@ == name
            && modules@[k].base <= ptr && ptr < modules@[k].end;
        assert(modules@[k].name@ == name);
    }
    Some((base, end))
}

} // verus!
