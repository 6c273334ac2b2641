//! The printable ASCII strings of a loaded binary's data sections.
use vstd::prelude::*;

use crate::error::S2Error;
use crate::objfile::{SectionKindModel, SectionRecord};
use crate::s2binlib::S2BinLib;
use crate::store::NamedStore;
use crate::text::{string_from_bytes_lossy, utf8_lossy};

verus! {

/// The shortest string the table records.
pub const MIN_STRING_LENGTH: u64 = 4;

/// A printable ASCII byte: space through tilde.
pub open spec fn is_printable(b: u8) -> bool {
    0x20 <= b <= 0x7E
}

/// The end of the run of printable bytes that starts at `i`, before `end`.
pub open spec fn run_end(d: Seq<u8>, i: int, end: int) -> int
    decreases end - i,
{
    if i >= end || !is_printable(d[i]) {
        i
    } else {
        run_end(d, i + 1, end)
    }
}

/// The runs of at least four printable bytes in `d[i..end]`, as (start, end)
/// file offsets, in order.
pub open spec fn printable_runs(d: Seq<u8>, i: int, end: int) -> Seq<(int, int)>
    decreases end - i,
{
    if i >= end {
        Seq::empty()
    } else if !is_printable(d[i]) {
        printable_runs(d, i + 1, end)
    } else {
        let e = run_end(d, i, end);
        if e <= i || e > end {
            Seq::empty()
        } else {
            (if e - i >= MIN_STRING_LENGTH { seq![(i, e)] } else { Seq::empty() }) + printable_runs(d, e, end)
        }
    }
}

/// The file ranges scanned for strings, from section `i` on: those of
/// sections that are neither code nor uninitialized data, clipped to the
/// file, when not empty.
pub open spec fn string_ranges(t: Seq<SectionRecord>, len: nat, i: int) -> Seq<(u64, u64)>
    decreases t.len() - i,
{
    if i < 0 || i >= t.len() {
        Seq::empty()
    } else {
        let here: Seq<(u64, u64)> = match t[i].kind {
            SectionKindModel::Text => Seq::empty(),
            SectionKindModel::UninitializedData => Seq::empty(),
            SectionKindModel::UninitializedTls => Seq::empty(),
            SectionKindModel::Other => match t[i].file_range {
                None => Seq::empty(),
                Some((start, size)) => {
                    let e = start.wrapping_add(size);
                    let end = if e <= len { e } else { len as u64 };
                    if start < end { seq![(start, end)] } else { Seq::empty() }
                },
            },
        };
        here + string_ranges(t, len, i + 1)
    }
}

/// The string runs of the ranges from `k` on, in order.
pub open spec fn runs_of_ranges(d: Seq<u8>, ranges: Seq<(u64, u64)>, k: int) -> Seq<(int, int)>
    decreases ranges.len() - k,
{
    if k < 0 || k >= ranges.len() {
        Seq::empty()
    } else {
        printable_runs(d, ranges[k].0 as int, ranges[k].1 as int) + runs_of_ranges(d, ranges, k + 1)
    }
}

fn find_run_end(d: &[u8], i: u64, end: u64) -> (r: u64)
    requires
        i <= end <= d@.len(),
    ensures
        r as int == run_end(d@, i as int, end as int),
        i <= r <= end,
        i < end && is_printable(d@[i as int]) ==> r > i,
{
    let mut j = i;
    while j < end && 0x20 <= d[j as usize] && d[j as usize] <= 0x7E
        invariant
            i <= j <= end <= d@.len(),
            run_end(d@, i as int, end as int) == run_end(d@, j as int, end as int),
        decreases end - j,
    {
        j = j + 1;
    }
    j
}

impl S2BinLib {
    /// `m` with each run of `runs` recorded under its text (later runs
    /// replace earlier ones of the same text), at the address of its first
    /// byte, for the runs whose first byte has one.
    pub open spec fn record_runs(&self, bin: Seq<char>, m: Map<Seq<char>, u64>, runs: Seq<(int, int)>) -> Map<Seq<char>, u64>
        decreases runs.len(),
    {
        if runs.len() == 0 {
            m
        } else {
            let (s, e) = runs[0];
            let next = match self.spec_offset_to_rva(bin, s as u64) {
                Ok(rva) => m.insert(utf8_lossy(self.binaries_view()[bin].subrange(s, e)), rva),
                Err(_) => m,
            };
            self.record_runs(bin, next, runs.drop_first())
        }
    }

    /// What dumping the strings of binary `bin` records, or why it fails.
    pub open spec fn spec_string_table(&self, bin: Seq<char>) -> Result<Map<Seq<char>, u64>, S2Error> {
        match self.spec_sections(bin) {
            Err(e) => Err(e),
            Ok(t) => {
                let d = self.binaries_view()[bin];
                Ok(self.record_runs(bin, Map::empty(), runs_of_ranges(d, string_ranges(t, d.len(), 0), 0)))
            },
        }
    }

    /// Records the runs in `d[start..end]`.
    fn scan_range(&self, binary_name: &str, data: &[u8], start: u64, end: u64, table: &mut NamedStore<u64>)
        requires
            self.wf(),
            self.binaries_view().contains_key(binary_name@),
            data@ == self.binaries_view()[binary_name@],
            start <= end <= data@.len(),
            old(table).wf(),
        ensures
            final(table).wf(),
            final(table).view() == self.record_runs(binary_name@, old(table).view(), printable_runs(data@, start as int, end as int)),
    {
        let mut index = start;
        while index < end
            invariant
                self.wf(),
                self.binaries_view().contains_key(binary_name@),
                data@ == self.binaries_view()[binary_name@],
                start <= index <= end <= data@.len(),
                table.wf(),
                self.record_runs(binary_name@, old(table).view(), printable_runs(data@, start as int, end as int))
                    == self.record_runs(binary_name@, table.view(), printable_runs(data@, index as int, end as int)),
            decreases end - index,
        {
            let b = data[index as usize];
            if !(0x20 <= b && b <= 0x7E) {
                index = index + 1;
            } else {
                let s = index;
                let e = find_run_end(data, index, end);
                let ghost before = table.view();
                let ghost rest = printable_runs(data@, e as int, end as int);
                if e - s >= MIN_STRING_LENGTH {
                    match self.file_offset_to_rva(binary_name, s) {
                        Ok(rva) => {
                            let text = string_from_bytes_lossy(vstd::slice::slice_subrange(data, s as usize, e as usize));
                            table.insert(text, rva);
                        },
                        Err(_) => {},
                    }
                    proof {
                        assert((seq![(s as int, e as int)] + rest).drop_first() =~= rest);
                        assert((seq![(s as int, e as int)] + rest)[0] == (s as int, e as int));
                    }
                } else {
                    proof {
                        assert(Seq::<(int, int)>::empty() + rest =~= rest);
                    }
                }
                index = e;
            }
        }
    }

    /// Scans the data sections of binary `binary_name` (all but code and
    /// uninitialized data) for runs of four or more printable ASCII bytes
    /// and caches each run's text with the address of its first byte.
    pub fn dump_strings(&mut self, binary_name: &str) -> (r: Result<(), S2Error>)
        requires
            old(self).wf(),
        ensures
            final(self).wf(),
            final(self).same_setup(*old(self)),
            final(self).xrefs_view() == old(self).xrefs_view(),
            final(self).calls_targets_view() == old(self).calls_targets_view(),
            final(self).vtables_view() == old(self).vtables_view(),
            match old(self).spec_string_table(binary_name@) {
                Err(e) => r == Err::<(), S2Error>(e) && final(self).strings_view() == old(self).strings_view(),
                Ok(m) => r is Ok && final(self).strings_view() == old(self).strings_view().insert(binary_name@, m),
            },
    {
        proof {
            self.lemma_same_setup_refl();
        }
        let secs = self.sections_of(binary_name)?;
        let data = self.get_binary(binary_name)?;
        let ghost d = data@;
        let ghost t = secs@;
        let len = data.len() as u64;
        let mut ranges: Vec<(u64, u64)> = Vec::new();
        let mut i: usize = 0;
        proof {
            assert(ranges@ + string_ranges(t, d.len(), 0) =~= string_ranges(t, d.len(), 0));
        }
        while i < secs.len()
            invariant
                t == secs@,
                d == data@,
                len == d.len(),
                i <= t.len(),
                ranges@ + string_ranges(t, d.len(), i as int) == string_ranges(t, d.len(), 0),
                forall|k: int| 0 <= k < ranges@.len() ==> (#[trigger] ranges@[k]).0 <= ranges@[k].1 <= d.len(),
            decreases t.len() - i,
        {
            let ghost before = ranges@;
            let skip = match secs[i].kind {
                SectionKindModel::Text => true,
                SectionKindModel::UninitializedData => true,
                SectionKindModel::UninitializedTls => true,
                SectionKindModel::Other => false,
            };
            if !skip {
                if let Some((start, size)) = secs[i].file_range {
                    let e = start.wrapping_add(size);
                    let end = if e <= len { e } else { len };
                    if start < end {
                        ranges.push((start, end));
                    }
                }
            }
            proof {
                assert(before + string_ranges(t, d.len(), i as int) =~= ranges@ + string_ranges(t, d.len(), i + 1));
            }
            i = i + 1;
        }
        proof {
            assert(ranges@ + Seq::<(u64, u64)>::empty() =~= ranges@);
        }
        let mut table: NamedStore<u64> = NamedStore::new();
        let mut k: usize = 0;
        while k < ranges.len()
            invariant
                self.wf(),
                self.binaries_view().contains_key(binary_name@),
                data@ == self.binaries_view()[binary_name@],
                forall|j: int| 0 <= j < ranges@.len() ==> (#[trigger] ranges@[j]).0 <= ranges@[j].1 <= data@.len(),
                k <= ranges@.len(),
                table.wf(),
                self.record_runs(binary_name@, Map::empty(), runs_of_ranges(data@, ranges@, 0))
                    == self.record_runs(binary_name@, table.view(), runs_of_ranges(data@, ranges@, k as int)),
            decreases ranges@.len() - k,
        {
            let (start, end) = ranges[k];
            let ghost before = table.view();
            self.scan_range(binary_name, data, start, end, &mut table);
            proof {
                self.lemma_record_runs_concat(binary_name@, before, printable_runs(data@, start as int, end as int),
                    runs_of_ranges(data@, ranges@, k + 1));
            }
            k = k + 1;
        }
        self.set_strings(binary_name, table);
        Ok(())
    }

    /// Recording two runs of strings is recording one after the other.
    pub proof fn lemma_record_runs_concat(&self, bin: Seq<char>, m: Map<Seq<char>, u64>, a: Seq<(int, int)>, b: Seq<(int, int)>)
        ensures
            self.record_runs(bin, m, a + b) == self.record_runs(bin, self.record_runs(bin, m, a), b),
        decreases a.len(),
    {
        if a.len() == 0 {
            assert(a + b =~= b);
        } else {
            assert((a + b).drop_first() =~= a.drop_first() + b);
            assert((a + b)[0] == a[0]);
            let (s, e) = a[0];
            let next = match self.spec_offset_to_rva(bin, s as u64) {
                Ok(rva) => m.insert(utf8_lossy(self.binaries_view()[bin].subrange(s, e)), rva),
                Err(_) => m,
            };
            self.lemma_record_runs_concat(bin, next, a.drop_first(), b);
        }
    }
}


/// The entries are in ascending name order.
pub open spec fn sorted_by_name(v: Seq<(Seq<char>, u64)>) -> bool {
    forall|i: int, j: int| 0 <= i < j < v.len() ==> crate::vsort::name_le(v[i].0, v[j].0)
}

/// (string, address) entries as plain values.
pub open spec fn entries_view(v: Seq<(String, u64)>) -> Seq<(Seq<char>, u64)> {
    v.map_values(|e: (String, u64)| (e.0@, e.1))
}

/// `slice::sort_by_key` on the string: the entries in ascending byte order
/// of their strings, the same entries as before.
#[verifier::external_body]
fn sort_entries_by_name(v: &mut Vec<(String, u64)>)
    ensures
        sorted_by_name(entries_view(final(v)@)),
        entries_view(final(v)@).to_multiset() == entries_view(old(v)@).to_multiset(),
{
    v.sort_by_key(|e| e.0.clone());
}

/// The entries of a string table, sorted by string: each string of the
/// table once, with its address.
pub fn sorted_string_entries(table: &NamedStore<u64>) -> (r: Vec<(String, u64)>)
    requires
        table.wf(),
    ensures
        sorted_by_name(entries_view(r@)),
        entries_view(r@).to_multiset() == table.key_seq().map_values(|k: Seq<char>| (k, table.view()[k])).to_multiset(),
        table.key_seq().to_set() == table.view().dom(),
{
    proof {
        table.lemma_keys();
    }
    let n = table.len();
    let mut out: Vec<(String, u64)> = Vec::new();
    let mut i: usize = 0;
    while i < n
        invariant
            table.wf(),
            n == table.key_seq().len(),
            i <= n,
            entries_view(out@) == table.key_seq().map_values(|k: Seq<char>| (k, table.view()[k])).take(i as int),
        decreases n - i,
    {
        let k = table.key_at(i);
        let v = *table.value_at(i);
        let ghost before = entries_view(out@);
        out.push((k.clone(), v));
        proof {
            assert(entries_view(out@) =~= before.push((k@, v)));
            assert(entries_view(out@) =~= table.key_seq().map_values(|k: Seq<char>| (k, table.view()[k])).take(i + 1));
        }
        i = i + 1;
    }
    proof {
        assert(table.key_seq().map_values(|k: Seq<char>| (k, table.view()[k])).take(i as int)
            =~= table.key_seq().map_values(|k: Seq<char>| (k, table.view()[k])));
    }
    sort_entries_by_name(&mut out);
    out
}

} // verus!
