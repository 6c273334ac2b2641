//! Searches in a loaded binary: byte patterns, strings, exports and symbols.
use vstd::prelude::*;
use vstd::string::StringSliceAdditionalSpecFns;

use crate::error::S2Error;
use crate::objfile::{
    object_dynamic_symbol_table, object_export_table, read_dynamic_symbol_table, read_export_table,
    ExportRecord, SymbolRecord,
};
use crate::pattern::{
    find_first, is_valid_pattern_string, parse_pattern_string, pattern_search, pattern_string_bytes,
    pattern_tokens, lists_wildcards, wildcard_mask,
};
use crate::s2binlib::S2BinLib;
use crate::text::{str_eq, string_from_bytes_lossy, utf8_lossy};

verus! {

/// The bytes of `v` in little-endian order.
pub open spec fn le_bytes_u32(v: u32) -> Seq<u8> {
    seq![(v % 0x100) as u8, ((v / 0x100) % 0x100) as u8, ((v / 0x10000) % 0x100) as u8, (v / 0x1000000) as u8]
}

pub(crate) fn le_bytes_of(v: u32) -> (r: Vec<u8>)
    ensures
        r@ == le_bytes_u32(v),
{
    let mut r: Vec<u8> = Vec::new();
    r.push((v % 0x100) as u8);
    r.push(((v / 0x100) % 0x100) as u8);
    r.push(((v / 0x10000) % 0x100) as u8);
    r.push((v / 0x1000000) as u8);
    proof {
        assert(r@ =~= le_bytes_u32(v));
    }
    r
}

/// The offsets at which a section search finds `pattern` in `d[off..end]`:
/// the first match, then the first match after it, and so on; the search
/// stops at the first miss, and also at a match at the very start of what is
/// left (which the search reports as offset 0).
pub open spec fn section_hits(d: Seq<u8>, off: u64, end: u64, pattern: Seq<u8>) -> Seq<u64>
    decreases end - off,
{
    if off >= end || end > d.len() {
        Seq::empty()
    } else {
        match pattern_search(d.subrange(off as int, end as int), pattern, Seq::empty()) {
            Some(i) => if i > 0 && off + i < end {
                seq![(off + i) as u64] + section_hits(d, (off + i + 1) as u64, end, pattern)
            } else {
                Seq::empty()
            },
            None => Seq::empty(),
        }
    }
}

/// The first match of `pattern` in `d[start..end]` as a section search
/// reports it: 0 for a match at `start`, else the file offset of the match.
pub open spec fn spec_find_in_range(d: Seq<u8>, start: u64, end: u64, pattern: Seq<u8>) -> Result<u64, S2Error> {
    if start > end || end > d.len() {
        Err(S2Error::ReadOutOfBounds)
    } else {
        match pattern_search(d.subrange(start as int, end as int), pattern, Seq::empty()) {
            None => Err(S2Error::PatternNotFound),
            Some(i) => Ok(if i == 0 { 0 } else { (i + start) as u64 }),
        }
    }
}

/// One step of a pattern scan over a binary.
#[derive(Debug, Clone, Copy, PartialEq, Eq, Structural)]
pub enum ScanStep {
    /// The scan is over.
    Finished,
    /// A match at address `rva`; the scan goes on from file offset `next_offset`.
    Hit { rva: u64, next_offset: usize },
}

impl S2BinLib {
    /// What one scan step from file offset `offset` yields: an error when
    /// fewer than the pattern's length plus one bytes remain or the pattern
    /// does not occur in the rest; the end of the scan for a match right at
    /// `offset`; else the address of the first match.
    pub open spec fn spec_scan_step(&self, binary_name: Seq<char>, pattern: Seq<u8>, wildcards: Seq<usize>, offset: usize) -> Result<ScanStep, S2Error> {
        if !self.binaries_view().contains_key(binary_name) {
            Err(S2Error::BinaryNotFound)
        } else {
            let d = self.binaries_view()[binary_name];
            if offset + pattern.len() >= d.len() {
                Err(S2Error::PatternNotFound)
            } else {
                match pattern_search(d.skip(offset as int), pattern, wildcards) {
                    None => Err(S2Error::PatternNotFound),
                    Some(i) => if i == 0 {
                        Ok(ScanStep::Finished)
                    } else {
                        match self.spec_offset_to_rva(binary_name, (offset + i) as u64) {
                            Err(e) => Err(e),
                            Ok(rva) => Ok(ScanStep::Hit { rva, next_offset: (offset + i + 1) as usize }),
                        }
                    },
                }
            }
        }
    }

    /// One step of scanning binary `binary_name` for `pattern` (with the
    /// given wildcard indices) from file offset `offset`.
    pub fn pattern_scan_step(&self, binary_name: &str, pattern: &[u8], wildcards: &[usize], offset: usize) -> (r: Result<ScanStep, S2Error>)
        requires
            self.wf(),
        ensures
            r == self.spec_scan_step(binary_name@, pattern@, wildcards@, offset),
            r matches Ok(ScanStep::Hit { next_offset, .. }) ==> offset < next_offset
                && next_offset <= self.binaries_view()[binary_name@].len(),
    {
        let data = self.get_binary(binary_name)?;
        if offset as u128 + pattern.len() as u128 >= data.len() as u128 {
            return Err(S2Error::PatternNotFound);
        }
        let rest = vstd::slice::slice_subrange(data, offset, data.len());
        proof {
            assert(rest@ == data@.skip(offset as int));
        }
        let found = find_first(rest, pattern, wildcards)?;
        if found == 0 {
            return Ok(ScanStep::Finished);
        }
        let at = offset + found as usize;
        let rva = self.file_offset_to_rva(binary_name, at as u64)?;
        Ok(ScanStep::Hit { rva, next_offset: at + 1 })
    }

    /// Address of the first match of the IDA-style pattern in binary
    /// `binary_name`, as the first scan step from the start finds it; 0 when
    /// that step ends the scan.
    pub fn pattern_scan_rva(&self, binary_name: &str, pattern_string: &str) -> (r: Result<u64, S2Error>)
        requires
            self.wf(),
            is_valid_pattern_string(pattern_string.spec_bytes()),
        ensures
            forall|w: Seq<usize>| lists_wildcards(pattern_tokens(pattern_string.spec_bytes()), w) ==> match self.spec_scan_step(
                binary_name@,
                pattern_string_bytes(pattern_string.spec_bytes()),
                w,
                0,
            ) {
                Err(e) => r == Err::<u64, S2Error>(e),
                Ok(ScanStep::Finished) => r == Ok::<u64, S2Error>(0),
                Ok(ScanStep::Hit { rva, .. }) => r == Ok::<u64, S2Error>(rva),
            },
    {
        let _ = self.get_binary(binary_name)?;
        let (pattern, wildcards) = parse_pattern_string(pattern_string);
        proof {
            lemma_wildcard_lists_same_mask(pattern_tokens(pattern_string.spec_bytes()), wildcards@);
        }
        match self.pattern_scan_step(binary_name, pattern.as_slice(), wildcards.as_slice(), 0)? {
            ScanStep::Finished => Ok(0),
            ScanStep::Hit { rva, .. } => Ok(rva),
        }
    }

    /// `pattern_scan_rva`, as a process address.
    pub fn pattern_scan(&self, binary_name: &str, pattern_string: &str) -> (r: Result<u64, S2Error>)
        requires
            self.wf(),
            is_valid_pattern_string(pattern_string.spec_bytes()),
        ensures
            forall|w: Seq<usize>| lists_wildcards(pattern_tokens(pattern_string.spec_bytes()), w) ==> match self.spec_scan_step(
                binary_name@,
                pattern_string_bytes(pattern_string.spec_bytes()),
                w,
                0,
            ) {
                Err(e) => r == Err::<u64, S2Error>(e),
                Ok(ScanStep::Finished) => r == self.spec_rva_to_mem(binary_name@, 0),
                Ok(ScanStep::Hit { rva, .. }) => r == self.spec_rva_to_mem(binary_name@, rva),
            },
    {
        let rva = self.pattern_scan_rva(binary_name, pattern_string)?;
        self.rva_to_mem_address(binary_name, rva)
    }

    /// Step `k` of a scan from the start of the binary: the first step, then
    /// each next one from the offset the hit before it gave; once a step ends
    /// the scan or fails, the later steps are that same step.
    pub open spec fn spec_nth_step(&self, binary_name: Seq<char>, pattern: Seq<u8>, wildcards: Seq<usize>, k: nat) -> Result<ScanStep, S2Error>
        decreases k,
    {
        if k == 0 {
            self.spec_scan_step(binary_name, pattern, wildcards, 0)
        } else {
            match self.spec_nth_step(binary_name, pattern, wildcards, (k - 1) as nat) {
                Ok(ScanStep::Hit { next_offset, .. }) => self.spec_scan_step(binary_name, pattern, wildcards, next_offset),
                other => other,
            }
        }
    }

    /// The address handed to a scan's callback for a hit at `rva`: the
    /// address itself, or (`mem`) the process address it maps to.
    pub open spec fn scan_address(&self, binary_name: Seq<char>, rva: u64, mem: bool) -> u64 {
        if mem {
            self.spec_rva_to_mem(binary_name, rva)->Ok_0
        } else {
            rva
        }
    }

    /// Step `k` of the scan was a hit, and the call of `callback` with `k`
    /// and that hit's address returned `false`.
    pub open spec fn scan_call_false<F: Fn(usize, u64) -> bool>(
        &self,
        binary_name: Seq<char>,
        pattern: Seq<u8>,
        wildcards: Seq<usize>,
        callback: F,
        mem: bool,
        k: int,
    ) -> bool {
        match self.spec_nth_step(binary_name, pattern, wildcards, k as nat) {
            Ok(ScanStep::Hit { rva, .. }) => call_ensures(callback, (k as usize, self.scan_address(binary_name, rva, mem)), false),
            _ => false,
        }
    }

    /// A scan that handed hits to `callback` ended with `r` after `m` calls
    /// that returned `false`: the `k`-th call (for `k < m`) got the number
    /// `k` and the address of hit `k`; then step `m` failed (`r` is its
    /// error), ended the scan (`r` is `Ok`), or was a hit whose call returned
    /// `true` (`r` is `Ok`).
    pub open spec fn scan_outcome<F: Fn(usize, u64) -> bool>(
        &self,
        binary_name: Seq<char>,
        pattern: Seq<u8>,
        wildcards: Seq<usize>,
        callback: F,
        mem: bool,
        m: nat,
        r: Result<(), S2Error>,
    ) -> bool {
        &&& forall|k: int| 0 <= k < m ==> #[trigger] self.scan_call_false(binary_name, pattern, wildcards, callback, mem, k)
        &&& match self.spec_nth_step(binary_name, pattern, wildcards, m) {
            Err(e) => r == Err::<(), S2Error>(e),
            Ok(ScanStep::Finished) => r == Ok::<(), S2Error>(()),
            Ok(ScanStep::Hit { rva, .. }) => r == Ok::<(), S2Error>(())
                && call_ensures(callback, (m as usize, self.scan_address(binary_name, rva, mem)), true),
        }
    }

    /// The scan steps read only the mask that the wildcards make.
    pub proof fn lemma_nth_step_same_mask(&self, binary_name: Seq<char>, pattern: Seq<u8>, w1: Seq<usize>, w2: Seq<usize>, k: nat)
        requires
            wildcard_mask(pattern.len(), w1) == wildcard_mask(pattern.len(), w2),
        ensures
            self.spec_nth_step(binary_name, pattern, w1, k) == self.spec_nth_step(binary_name, pattern, w2, k),
        decreases k,
    {
        assert forall|o: usize| #[trigger] self.spec_scan_step(binary_name, pattern, w1, o)
            == self.spec_scan_step(binary_name, pattern, w2, o) by {
        }
        if k > 0 {
            self.lemma_nth_step_same_mask(binary_name, pattern, w1, w2, (k - 1) as nat);
        }
    }

    /// The shared loop of the two scans that hand every hit to a callback.
    fn scan_with_callback<F: Fn(usize, u64) -> bool>(
        &self,
        binary_name: &str,
        pattern: &Vec<u8>,
        wildcards: &Vec<usize>,
        callback: &F,
        mem: bool,
        base: u64,
        image_base: u64,
    ) -> (r: Result<(), S2Error>)
        requires
            self.wf(),
            forall|i: usize, a: u64| callback.requires((i, a)),
            mem ==> self.spec_module_base(binary_name@) == Ok::<u64, S2Error>(base)
                && self.spec_image_base_of(binary_name@) == Ok::<u64, S2Error>(image_base),
        ensures
            exists|m: nat| self.scan_outcome(binary_name@, pattern@, wildcards@, *callback, mem, m, r),
    {
        let ghost b = binary_name@;
        let ghost p = pattern@;
        let ghost w = wildcards@;
        let first = self.pattern_scan_step(binary_name, pattern.as_slice(), wildcards.as_slice(), 0);
        let (mut rva, mut offset) = match first {
            Err(e) => {
                assert(self.scan_outcome(b, p, w, *callback, mem, 0, Err(e)));
                return Err(e);
            },
            Ok(ScanStep::Finished) => {
                assert(self.scan_outcome(b, p, w, *callback, mem, 0, Ok(())));
                return Ok(());
            },
            Ok(ScanStep::Hit { rva, next_offset }) => (rva, next_offset),
        };
        let ghost n = self.binaries_view()[b].len();
        let mut index: usize = 0;
        loop
            invariant
                self.wf(),
                b == binary_name@,
                p == pattern@,
                w == wildcards@,
                self.binaries_view().contains_key(b),
                n == self.binaries_view()[b].len(),
                index < offset <= n,
                forall|i: usize, a: u64| callback.requires((i, a)),
                mem ==> self.spec_module_base(b) == Ok::<u64, S2Error>(base)
                    && self.spec_image_base_of(b) == Ok::<u64, S2Error>(image_base),
                self.spec_nth_step(b, p, w, index as nat) == Ok::<ScanStep, S2Error>(ScanStep::Hit { rva, next_offset: offset }),
                forall|k: int| 0 <= k < index ==> #[trigger] self.scan_call_false(b, p, w, *callback, mem, k),
            decreases n - offset,
        {
            let addr = if mem { rva.wrapping_sub(image_base).wrapping_add(base) } else { rva };
            assert(addr == self.scan_address(b, rva, mem));
            let stop = callback(index, addr);
            if stop {
                assert(self.scan_outcome(b, p, w, *callback, mem, index as nat, Ok(())));
                return Ok(());
            }
            let ghost done = index;
            assert(self.spec_nth_step(b, p, w, (index + 1) as nat) == self.spec_scan_step(b, p, w, offset));
            let step = self.pattern_scan_step(binary_name, pattern.as_slice(), wildcards.as_slice(), offset);
            assert forall|k: int| 0 <= k < index + 1 implies #[trigger] self.scan_call_false(b, p, w, *callback, mem, k) by {
            }
            match step {
                Err(e) => {
                    assert(self.scan_outcome(b, p, w, *callback, mem, (index + 1) as nat, Err(e)));
                    return Err(e);
                },
                Ok(ScanStep::Finished) => {
                    assert(self.scan_outcome(b, p, w, *callback, mem, (index + 1) as nat, Ok(())));
                    return Ok(());
                },
                Ok(ScanStep::Hit { rva: next_rva, next_offset }) => {
                    rva = next_rva;
                    offset = next_offset;
                },
            }
            index = index + 1;
        }
    }

    /// Scans binary `binary_name` for the IDA-style pattern and hands each
    /// hit to `callback` with its number and address, in order, until the
    /// callback returns `true` (then `Ok`), a step ends the scan (`Ok`) or
    /// a step fails (its error).
    pub fn pattern_scan_all_rva<F: Fn(usize, u64) -> bool>(&self, binary_name: &str, pattern_string: &str, callback: F) -> (r: Result<(), S2Error>)
        requires
            self.wf(),
            is_valid_pattern_string(pattern_string.spec_bytes()),
            forall|i: usize, a: u64| callback.requires((i, a)),
        ensures
            forall|w: Seq<usize>| lists_wildcards(pattern_tokens(pattern_string.spec_bytes()), w) ==> exists|m: nat|
                self.scan_outcome(binary_name@, pattern_string_bytes(pattern_string.spec_bytes()), w, callback, false, m, r),
    {
        let (pattern, wildcards) = parse_pattern_string(pattern_string);
        let r = self.scan_with_callback(binary_name, &pattern, &wildcards, &callback, false, 0, 0);
        proof {
            self.lemma_scan_any_wildcards(binary_name@, pattern_string.spec_bytes(), wildcards@, callback, false, r);
        }
        r
    }

    /// A scan's outcome holds for every list of the pattern's wildcards once
    /// it holds for one.
    proof fn lemma_scan_any_wildcards<F: Fn(usize, u64) -> bool>(
        &self,
        b: Seq<char>,
        s: Seq<u8>,
        w0: Seq<usize>,
        callback: F,
        mem: bool,
        r: Result<(), S2Error>,
    )
        requires
            lists_wildcards(pattern_tokens(s), w0),
            pattern_string_bytes(s).len() == pattern_tokens(s).len(),
            exists|m: nat| self.scan_outcome(b, pattern_string_bytes(s), w0, callback, mem, m, r),
        ensures
            forall|w: Seq<usize>| lists_wildcards(pattern_tokens(s), w) ==> exists|m: nat|
                self.scan_outcome(b, pattern_string_bytes(s), w, callback, mem, m, r),
    {
        let p = pattern_string_bytes(s);
        let m = choose|m: nat| self.scan_outcome(b, p, w0, callback, mem, m, r);
        lemma_wildcard_lists_same_mask(pattern_tokens(s), w0);
        assert forall|w: Seq<usize>| lists_wildcards(pattern_tokens(s), w) implies exists|m: nat|
            self.scan_outcome(b, p, w, callback, mem, m, r) by {
            assert forall|k: nat| #[trigger] self.spec_nth_step(b, p, w, k) == self.spec_nth_step(b, p, w0, k) by {
                self.lemma_nth_step_same_mask(b, p, w, w0, k);
            }
            assert forall|k: int| 0 <= k < m implies #[trigger] self.scan_call_false(b, p, w, callback, mem, k) by {
                assert(self.scan_call_false(b, p, w0, callback, mem, k));
                assert(self.spec_nth_step(b, p, w0, k as nat) == self.spec_nth_step(b, p, w, k as nat));
            }
            assert(self.spec_nth_step(b, p, w0, m) == self.spec_nth_step(b, p, w, m));
            assert(self.scan_outcome(b, p, w, callback, mem, m, r));
        }
    }

    /// `pattern_scan_all_rva` with each hit's address handed to `callback`
    /// as a process address; first fails when the module base or the image
    /// base of the binary is unknown.
    pub fn pattern_scan_all<F: Fn(usize, u64) -> bool>(&self, binary_name: &str, pattern_string: &str, callback: F) -> (r: Result<(), S2Error>)
        requires
            self.wf(),
            is_valid_pattern_string(pattern_string.spec_bytes()),
            forall|i: usize, a: u64| callback.requires((i, a)),
        ensures
            self.spec_module_base(binary_name@) matches Err(e) ==> r == Err::<(), S2Error>(e),
            self.spec_module_base(binary_name@) is Ok ==> (self.spec_image_base_of(binary_name@) matches Err(e)
                ==> r == Err::<(), S2Error>(e)),
            self.spec_module_base(binary_name@) is Ok && self.spec_image_base_of(binary_name@) is Ok ==>
            forall|w: Seq<usize>| lists_wildcards(pattern_tokens(pattern_string.spec_bytes()), w) ==> exists|m: nat|
                self.scan_outcome(binary_name@, pattern_string_bytes(pattern_string.spec_bytes()), w, callback, true, m, r),
    {
        let base = self.get_module_base_address(binary_name)?;
        let image_base = self.get_image_base(binary_name)?;
        let (pattern, wildcards) = parse_pattern_string(pattern_string);
        let r = self.scan_with_callback(binary_name, &pattern, &wildcards, &callback, true, base, image_base);
        proof {
            self.lemma_scan_any_wildcards(binary_name@, pattern_string.spec_bytes(), wildcards@, callback, true, r);
        }
        r
    }

    /// What `find_all_pattern_string_in_section` returns.
    pub open spec fn spec_string_hits_in_section(&self, binary_name: Seq<char>, section_name: Seq<char>, bytes: Seq<u8>) -> Result<Seq<u64>, S2Error> {
        match self.spec_section_range(binary_name, section_name) {
            Err(e) => Err(e),
            Ok((start, end)) => {
                let d = self.binaries_view()[binary_name];
                if start < end && end > d.len() {
                    Err(S2Error::ReadOutOfBounds)
                } else {
                    Ok(section_hits(d, start, end, bytes))
                }
            },
        }
    }

    /// File offsets of the occurrences of `string` in section `section_name`
    /// (see `section_hits` for where the search stops).
    pub fn find_all_pattern_string_in_section(&self, binary_name: &str, section_name: &str, string: &str) -> (r: Result<Vec<u64>, S2Error>)
        requires
            self.wf(),
        ensures
            match self.spec_string_hits_in_section(binary_name@, section_name@, string.spec_bytes()) {
                Ok(h) => r matches Ok(v) && v@ == h,
                Err(e) => r == Err::<Vec<u64>, S2Error>(e),
            },
    {
        let data = self.get_binary(binary_name)?;
        let (start, end) = self.get_section_range(binary_name, section_name)?;
        if start < end && end > data.len() as u64 {
            return Err(S2Error::ReadOutOfBounds);
        }
        let bytes = string.as_bytes();
        let no_wildcards: Vec<usize> = Vec::new();
        let ghost d = data@;
        let mut result: Vec<u64> = Vec::new();
        let mut offset = start;
        let mut done = false;
        proof {
            assert(result@ + section_hits(d, offset, end, bytes@) =~= section_hits(d, start, end, bytes@));
        }
        while !done && offset < end
            invariant
                d == data@,
                start < end ==> end <= d.len(),
                start <= offset,
                done ==> section_hits(d, offset, end, bytes@) == Seq::<u64>::empty(),
                result@ + section_hits(d, offset, end, bytes@) == section_hits(d, start, end, bytes@),
                no_wildcards@ == Seq::<usize>::empty(),
            decreases end - offset + (if done { 0int } else { 1int }),
        {
            assert(end <= d.len() && d.len() == data.len());
            let part = vstd::slice::slice_subrange(data, offset as usize, end as usize);
            assert(part@ == d.subrange(offset as int, end as int));
            match find_first(part, bytes, no_wildcards.as_slice()) {
                Err(_) => {
                    done = true;
                },
                Ok(found) => {
                    if found == 0 {
                        done = true;
                    } else {
                        let at = found + offset;
                        result.push(at);
                        proof {
                            assert(seq![at] + section_hits(d, (at + 1) as u64, end, bytes@) == section_hits(d, offset, end, bytes@));
                            assert(result@ + section_hits(d, (at + 1) as u64, end, bytes@) =~= (result@.drop_last() + seq![at]) + section_hits(d, (at + 1) as u64, end, bytes@));
                        }
                        offset = at + 1;
                    }
                },
            }
        }
        proof {
            assert(section_hits(d, offset, end, bytes@) == Seq::<u64>::empty());
            assert(result@ + Seq::<u64>::empty() =~= result@);
        }
        Ok(result)
    }

    /// What `find_pattern_int32_in_section` and `find_pattern_bytes_in_section` return.
    pub open spec fn spec_find_in_section(&self, binary_name: Seq<char>, section_name: Seq<char>, pattern: Seq<u8>) -> Result<u64, S2Error> {
        match self.spec_section_range(binary_name, section_name) {
            Err(e) => Err(e),
            Ok((start, end)) => spec_find_in_range(self.binaries_view()[binary_name], start, end, pattern),
        }
    }

    /// First occurrence of the little-endian bytes of `pattern` in section
    /// `section_name`: its file offset, or 0 for one at the section's start.
    pub(crate) fn find_pattern_int32_in_section(&self, binary_name: &str, section_name: &str, pattern: u32) -> (r: Result<u64, S2Error>)
        requires
            self.wf(),
        ensures
            r == self.spec_find_in_section(binary_name@, section_name@, le_bytes_u32(pattern)),
    {
        let bytes = le_bytes_of(pattern);
        self.find_pattern_bytes_in_section(binary_name, section_name, bytes.as_slice())
    }

    /// First occurrence of `pattern` in section `section_name`: its file
    /// offset, or 0 for one at the section's start.
    pub(crate) fn find_pattern_bytes_in_section(&self, binary_name: &str, section_name: &str, pattern: &[u8]) -> (r: Result<u64, S2Error>)
        requires
            self.wf(),
        ensures
            r == self.spec_find_in_section(binary_name@, section_name@, pattern@),
    {
        let data = self.get_binary(binary_name)?;
        let (start, end) = self.get_section_range(binary_name, section_name)?;
        if start > end || end > data.len() as u64 {
            return Err(S2Error::ReadOutOfBounds);
        }
        let no_wildcards: Vec<usize> = Vec::new();
        let part = vstd::slice::slice_subrange(data, start as usize, end as usize);
        let found = find_first(part, pattern, no_wildcards.as_slice())?;
        if found != 0 {
            Ok(found + start)
        } else {
            Ok(0)
        }
    }

    /// What `find_string_rva` returns.
    pub open spec fn spec_find_string_rva(&self, binary_name: Seq<char>, bytes: Seq<u8>) -> Result<u64, S2Error> {
        if !self.binaries_view().contains_key(binary_name) {
            Err(S2Error::BinaryNotFound)
        } else {
            match pattern_search(self.binaries_view()[binary_name], bytes, Seq::empty()) {
                None => Err(S2Error::PatternNotFound),
                Some(i) => self.spec_offset_to_rva(binary_name, i as u64),
            }
        }
    }

    /// Address of the first occurrence of the bytes of `string` in binary
    /// `binary_name`.
    pub fn find_string_rva(&self, binary_name: &str, string: &str) -> (r: Result<u64, S2Error>)
        requires
            self.wf(),
        ensures
            r == self.spec_find_string_rva(binary_name@, string.spec_bytes()),
    {
        let data = self.get_binary(binary_name)?;
        let no_wildcards: Vec<usize> = Vec::new();
        let found = find_first(data, string.as_bytes(), no_wildcards.as_slice())?;
        self.file_offset_to_rva(binary_name, found)
    }

    /// `find_string_rva`, as a process address.
    pub fn find_string(&self, binary_name: &str, string: &str) -> (r: Result<u64, S2Error>)
        requires
            self.wf(),
        ensures
            match self.spec_find_string_rva(binary_name@, string.spec_bytes()) {
                Err(e) => r == Err::<u64, S2Error>(e),
                Ok(rva) => r == self.spec_rva_to_mem(binary_name@, rva),
            },
    {
        let rva = self.find_string_rva(binary_name, string)?;
        self.rva_to_mem_address(binary_name, rva)
    }

    /// What `find_export_rva` returns: the address of the first export whose
    /// name, read as lossy UTF-8, is `export_name`.
    pub open spec fn spec_find_export_rva(&self, binary_name: Seq<char>, export_name: Seq<char>) -> Result<u64, S2Error> {
        if !self.binaries_view().contains_key(binary_name) {
            Err(S2Error::BinaryNotFound)
        } else {
            match object_export_table(self.binaries_view()[binary_name]) {
                None => Err(S2Error::ObjectParse),
                Some(t) => match first_export_named(t, export_name) {
                    Some(a) => Ok(a),
                    None => Err(S2Error::ExportNotFound),
                },
            }
        }
    }

    /// Address of export `export_name` of binary `binary_name`.
    pub fn find_export_rva(&self, binary_name: &str, export_name: &str) -> (r: Result<u64, S2Error>)
        requires
            self.wf(),
        ensures
            r == self.spec_find_export_rva(binary_name@, export_name@),
    {
        let data = self.get_binary(binary_name)?;
        let exports = read_export_table(data)?;
        let mut i: usize = 0;
        proof {
            assert(exports@.skip(0) == exports@);
        }
        while i < exports.len()
            invariant
                i <= exports@.len(),
                self.binaries_view().contains_key(binary_name@),
                object_export_table(self.binaries_view()[binary_name@]) == Some(exports@),
                first_export_named(exports@, export_name@) == first_export_named(exports@.skip(i as int), export_name@),
            decreases exports@.len() - i,
        {
            proof {
                assert(exports@.skip(i as int).drop_first() =~= exports@.skip(i + 1));
                assert(exports@.skip(i as int)[0] == exports@[i as int]);
            }
            let name = string_from_bytes_lossy(exports[i].name.as_slice());
            if str_eq(name.as_str(), export_name) {
                return Ok(exports[i].address);
            }
            i = i + 1;
        }
        Err(S2Error::ExportNotFound)
    }

    /// The address of export `export_name` converted as if it were a process
    /// address (`mem_address_to_rva`).
    pub fn find_export(&self, binary_name: &str, export_name: &str) -> (r: Result<u64, S2Error>)
        requires
            self.wf(),
        ensures
            match self.spec_find_export_rva(binary_name@, export_name@) {
                Err(e) => r == Err::<u64, S2Error>(e),
                Ok(a) => r == self.spec_mem_to_rva(binary_name@, a),
            },
    {
        let a = self.find_export_rva(binary_name, export_name)?;
        self.mem_address_to_rva(binary_name, a)
    }

    /// What `find_symbol_rva` returns: the address of the first dynamic
    /// symbol named `symbol_name`.
    pub open spec fn spec_find_symbol_rva(&self, binary_name: Seq<char>, symbol_name: Seq<char>) -> Result<u64, S2Error> {
        if !self.binaries_view().contains_key(binary_name) {
            Err(S2Error::BinaryNotFound)
        } else {
            match object_dynamic_symbol_table(self.binaries_view()[binary_name]) {
                None => Err(S2Error::ObjectParse),
                Some(t) => match first_symbol_named(t, symbol_name) {
                    Some(a) => Ok(a),
                    None => Err(S2Error::SymbolNotFound),
                },
            }
        }
    }

    /// Address of dynamic symbol `symbol_name` of binary `binary_name`.
    pub fn find_symbol_rva(&self, binary_name: &str, symbol_name: &str) -> (r: Result<u64, S2Error>)
        requires
            self.wf(),
        ensures
            r == self.spec_find_symbol_rva(binary_name@, symbol_name@),
    {
        let data = self.get_binary(binary_name)?;
        let symbols = read_dynamic_symbol_table(data)?;
        let mut i: usize = 0;
        proof {
            assert(symbols@.skip(0) == symbols@);
        }
        while i < symbols.len()
            invariant
                i <= symbols@.len(),
                self.binaries_view().contains_key(binary_name@),
                object_dynamic_symbol_table(self.binaries_view()[binary_name@]) == Some(symbols@),
                first_symbol_named(symbols@, symbol_name@) == first_symbol_named(symbols@.skip(i as int), symbol_name@),
            decreases symbols@.len() - i,
        {
            proof {
                assert(symbols@.skip(i as int).drop_first() =~= symbols@.skip(i + 1));
                assert(symbols@.skip(i as int)[0] == symbols@[i as int]);
            }
            match &symbols[i].name {
                Some(n) => {
                    if str_eq(n.as_str(), symbol_name) {
                        return Ok(symbols[i].address);
                    }
                },
                None => {},
            }
            i = i + 1;
        }
        Err(S2Error::SymbolNotFound)
    }

    /// `find_symbol_rva`, as a process address.
    pub fn find_symbol(&self, binary_name: &str, symbol_name: &str) -> (r: Result<u64, S2Error>)
        requires
            self.wf(),
        ensures
            match self.spec_find_symbol_rva(binary_name@, symbol_name@) {
                Err(e) => r == Err::<u64, S2Error>(e),
                Ok(a) => r == self.spec_rva_to_mem(binary_name@, a),
            },
    {
        let a = self.find_symbol_rva(binary_name, symbol_name)?;
        self.rva_to_mem_address(binary_name, a)
    }

    /// What `read_string` returns: the bytes from `file_offset` up to the next
    /// zero byte, as lossy UTF-8.
    pub open spec fn spec_read_string(&self, binary_name: Seq<char>, file_offset: u64) -> Result<Seq<char>, S2Error> {
        if !self.binaries_view().contains_key(binary_name) {
            Err(S2Error::BinaryNotFound)
        } else {
            let d = self.binaries_view()[binary_name];
            match c_string_end(d, file_offset as int) {
                Some(e) => Ok(utf8_lossy(d.subrange(file_offset as int, e))),
                None => Err(S2Error::UnterminatedString),
            }
        }
    }

    /// The zero-terminated string at file offset `file_offset`; an error when
    /// no zero byte follows it in the file.
    pub fn read_string(&self, binary_name: &str, file_offset: u64) -> (r: Result<String, S2Error>)
        requires
            self.wf(),
        ensures
            match self.spec_read_string(binary_name@, file_offset) {
                Ok(v) => r matches Ok(s) && s@ == v,
                Err(e) => r == Err::<String, S2Error>(e),
            },
    {
        let data = self.get_binary(binary_name)?;
        match find_c_string_end(data, file_offset) {
            Some(e) => {
                assert(file_offset < data@.len());
                Ok(string_from_bytes_lossy(vstd::slice::slice_subrange(data, file_offset as usize, e)))
            },
            None => Err(S2Error::UnterminatedString),
        }
    }

    /// What `get_binary_name_by_ptr` returns: the first loaded binary whose
    /// file would span `ptr` if mapped at its module base (an error as soon as
    /// a binary's module base is unknown).
    pub open spec fn spec_binary_name_by_ptr(&self, ptr: u64) -> Result<Seq<char>, S2Error> {
        binary_by_ptr(self, self.binary_order(), ptr)
    }

    /// Name of the loaded binary whose module holds process address `ptr`.
    pub fn get_binary_name_by_ptr(&self, ptr: u64) -> (r: Result<String, S2Error>)
        requires
            self.wf(),
        ensures
            match self.spec_binary_name_by_ptr(ptr) {
                Ok(n) => r matches Ok(s) && s@ == n,
                Err(e) => r == Err::<String, S2Error>(e),
            },
    {
        proof {
            self.lemma_wf();
        }
        let ghost keys = self.binaries.key_seq();
        let n = self.binaries.len();
        let mut i: usize = 0;
        proof {
            assert(keys.skip(0) == keys);
        }
        while i < n
            invariant
                self.wf(),
                n == keys.len(),
                keys == self.binaries.key_seq(),
                i <= n,
                binary_by_ptr(self, keys, ptr) == binary_by_ptr(self, keys.skip(i as int), ptr),
            decreases n - i,
        {
            proof {
                assert(keys.skip(i as int).drop_first() =~= keys.skip(i + 1));
                assert(keys.skip(i as int)[0] == keys[i as int]);
                self.lemma_wf();
                self.binaries.lemma_keys();
            }
            let name = self.binaries.key_at(i);
            let base = self.get_module_base_address(name.as_str())?;
            let len = self.binaries.value_at(i).len() as u64;
            if ptr >= base && ptr < base.wrapping_add(len) {
                return Ok(name.clone());
            }
            i = i + 1;
        }
        Err(S2Error::BinaryNotFound)
    }
}

/// Address of the first export whose lossy UTF-8 name is `name`.
pub open spec fn first_export_named(t: Seq<ExportRecord>, name: Seq<char>) -> Option<u64>
    decreases t.len(),
{
    if t.len() == 0 {
        None
    } else if utf8_lossy(t[0].name@) == name {
        Some(t[0].address)
    } else {
        first_export_named(t.drop_first(), name)
    }
}

/// Address of the first symbol named `name`.
pub open spec fn first_symbol_named(t: Seq<SymbolRecord>, name: Seq<char>) -> Option<u64>
    decreases t.len(),
{
    if t.len() == 0 {
        None
    } else if t[0].name matches Some(n) && n@ == name {
        Some(t[0].address)
    } else {
        first_symbol_named(t.drop_first(), name)
    }
}

/// Index of the first zero byte at or after `from`.
pub open spec fn c_string_end(d: Seq<u8>, from: int) -> Option<int>
    decreases d.len() - from,
{
    if from < 0 || from >= d.len() {
        None
    } else if d[from] == 0 {
        Some(from)
    } else {
        c_string_end(d, from + 1)
    }
}

/// Index of the first zero byte at or after `from`.
pub fn find_c_string_end(d: &[u8], from: u64) -> (r: Option<usize>)
    ensures
        match r {
            Some(e) => c_string_end(d@, from as int) == Some(e as int) && from <= e < d@.len(),
            None => c_string_end(d@, from as int) is None,
        },
{
    if from >= d.len() as u64 {
        return None;
    }
    let mut i = from as usize;
    while i < d.len() && d[i] != 0
        invariant
            from <= i <= d@.len(),
            c_string_end(d@, from as int) == c_string_end(d@, i as int),
        decreases d@.len() - i,
    {
        i = i + 1;
    }
    if i == d.len() {
        None
    } else {
        Some(i)
    }
}

/// The first binary, in `keys` order, whose file spans `ptr` from its module
/// base; an error as soon as a binary's base is unknown.
pub open spec fn binary_by_ptr(lib: &S2BinLib, keys: Seq<Seq<char>>, ptr: u64) -> Result<Seq<char>, S2Error>
    decreases keys.len(),
{
    if keys.len() == 0 {
        Err(S2Error::BinaryNotFound)
    } else {
        match lib.spec_module_base(keys[0]) {
            Err(e) => Err(e),
            Ok(base) => if base <= ptr && ptr < base.wrapping_add(lib.binaries_view()[keys[0]].len() as u64) {
                Ok(keys[0])
            } else {
                binary_by_ptr(lib, keys.drop_first(), ptr)
            },
        }
    }
}

/// Any two lists of the wildcard tokens give the same mask.
pub proof fn lemma_wildcard_lists_same_mask(tokens: Seq<Seq<u8>>, w: Seq<usize>)
    requires
        lists_wildcards(tokens, w),
    ensures
        forall|w2: Seq<usize>| lists_wildcards(tokens, w2) ==> wildcard_mask(tokens.len(), w2) == wildcard_mask(tokens.len(), w),
{
    assert forall|w2: Seq<usize>| lists_wildcards(tokens, w2) implies wildcard_mask(tokens.len(), w2) == wildcard_mask(tokens.len(), w) by {
        assert forall|j: int| 0 <= j < tokens.len() implies #[trigger] w2.contains(j as usize) == w.contains(j as usize) by {
            if w2.contains(j as usize) {
                let k = choose|k: int| 0 <= k < w2.len() && w2[k] == j as usize;
                assert(crate::pattern::is_wildcard_token(tokens[w2[k] as int]));
            }
            if w.contains(j as usize) {
                let k = choose|k: int| 0 <= k < w.len() && w[k] == j as usize;
                assert(crate::pattern::is_wildcard_token(tokens[w[k] as int]));
            }
        }
        assert(wildcard_mask(tokens.len(), w2) =~= wildcard_mask(tokens.len(), w));
    }
}


/// `binary_by_ptr` reads only the loaded binaries and the module bases.
pub proof fn lemma_binary_by_ptr_same(a: S2BinLib, b: S2BinLib, keys: Seq<Seq<char>>, ptr: u64)
    requires
        a.binaries_view() == b.binaries_view(),
        forall|n: Seq<char>| #[trigger] a.spec_module_base(n) == b.spec_module_base(n),
    ensures
        binary_by_ptr(&a, keys, ptr) == binary_by_ptr(&b, keys, ptr),
    decreases keys.len(),
{
    if keys.len() > 0 {
        assert(a.spec_module_base(keys[0]) == b.spec_module_base(keys[0]));
        lemma_binary_by_ptr_same(a, b, keys.drop_first(), ptr);
    }
}


/// `spec_binary_name_by_ptr` reads only the loaded binaries, their order and
/// the module bases.
pub(crate) proof fn lemma_name_by_ptr_same(a: S2BinLib, b: S2BinLib, ptr: u64)
    requires
        a.binaries_view() == b.binaries_view(),
        a.binary_order() == b.binary_order(),
        forall|n: Seq<char>| #[trigger] a.spec_module_base(n) == b.spec_module_base(n),
    ensures
        a.spec_binary_name_by_ptr(ptr) == b.spec_binary_name_by_ptr(ptr),
{
    lemma_binary_by_ptr_same(a, b, a.binary_order(), ptr);
}

} // verus!
