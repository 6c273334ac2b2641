//! The library's state: the game installation it reads, the binaries it has
//! loaded, and what it has learned of them.
use vstd::prelude::*;

use crate::error::S2Error;
use crate::memory::{get_module_base_from_pointer, module_from_pointer, spec_module_from_pointer, ModuleEntry};
use crate::objfile::{
    object_file_kind, object_named_section_range, object_section_table, read_file_kind,
    read_named_section_range, read_section_table, FileKindModel, SectionRecord,
};
use crate::sections::{
    file_offset_to_rva, is_file_offset_executable, rva_to_file_offset, spec_file_offset_executable,
    spec_file_offset_to_rva, spec_rva_to_file_offset,
};
use crate::sorted::is_sorted;
use crate::store::{NamedStore, U64Store};
use crate::text::{contains_chars, str_contains, str_eq, to_lowercase, unicode_lowercase};
use crate::vtable::VTableInfo;

verus! {

broadcast use vstd::string::group_string_axioms;

/// The OS is Windows.
pub open spec fn is_windows(os: Seq<char>) -> bool {
    os == "windows"@
}

/// The platform directory of the game's binaries for an OS.
pub open spec fn spec_os_dir_name(os: Seq<char>) -> Seq<char> {
    if is_windows(os) {
        "win64"@
    } else {
        "linuxsteamrt64"@
    }
}

/// The file name of a library on an OS: `name.dll` or `libname.so`.
pub open spec fn spec_os_lib_name(os: Seq<char>, lib: Seq<char>) -> Seq<char> {
    if is_windows(os) {
        lib + ".dll"@
    } else {
        "lib"@ + lib + ".so"@
    }
}

/// `base` joined with `part` as a Unix path: an absolute `part` replaces
/// `base`; otherwise a `/` separates them unless `base` is empty or already
/// ends with one.
pub open spec fn path_join(base: Seq<char>, part: Seq<char>) -> Seq<char> {
    if part.len() > 0 && part[0] == '/' {
        part
    } else if base.len() == 0 || base.last() == '/' {
        base + part
    } else {
        base + seq!['/'] + part
    }
}

/// Binaries that live under the game's own directory rather than the engine's.
pub open spec fn is_game_binary(name: Seq<char>) -> bool {
    name == "server"@ || name == "client"@ || name == "matchmaking"@ || name == "host"@
}

/// Image base that address arithmetic uses for a file kind: a PE file's
/// preferred base, 0 for ELF; other kinds are not supported.
pub open spec fn spec_image_base(kind: FileKindModel) -> Option<u64> {
    match kind {
        FileKindModel::Pe32 { image_base } => Some(image_base),
        FileKindModel::Pe64 { image_base } => Some(image_base),
        FileKindModel::Elf32 => Some(0),
        FileKindModel::Elf64 => Some(0),
        FileKindModel::Other { .. } => None,
    }
}

/// Resolves code and data in the binaries of a Source 2 game.
pub struct S2BinLib {
    pub(crate) game_path: String,
    pub(crate) game_type: String,
    pub(crate) os: String,
    pub(crate) binaries: NamedStore<Vec<u8>>,
    pub(crate) manual_base_addresses: NamedStore<u64>,
    pub(crate) process_modules: Vec<ModuleEntry>,
    pub(crate) xrefs_cache: NamedStore<U64Store<Vec<u64>>>,
    pub(crate) custom_binary_paths_windows: NamedStore<String>,
    pub(crate) custom_binary_paths_linux: NamedStore<String>,
    pub(crate) vtables: NamedStore<Vec<VTableInfo>>,
    pub(crate) strings_cache: NamedStore<NamedStore<u64>>,
    pub(crate) calls_targets_cache: NamedStore<Vec<u64>>,
}

impl S2BinLib {
    /// The stores are consistent.
    pub closed spec fn wf(&self) -> bool {
        &&& self.binaries.wf()
        &&& self.manual_base_addresses.wf()
        &&& self.xrefs_cache.wf()
        &&& forall|k: Seq<char>| #[trigger] self.xrefs_cache.view().contains_key(k) ==> self.xrefs_cache.view()[k].wf()
        &&& self.custom_binary_paths_windows.wf()
        &&& self.custom_binary_paths_linux.wf()
        &&& self.vtables.wf()
        &&& self.strings_cache.wf()
        &&& forall|k: Seq<char>| #[trigger] self.strings_cache.view().contains_key(k) ==> self.strings_cache.view()[k].wf()
        &&& self.calls_targets_cache.wf()
        &&& forall|k: Seq<char>| #[trigger] self.calls_targets_cache.view().contains_key(k) ==> is_sorted(self.calls_targets_cache.view()[k]@)
    }

    /// What `wf` says of each store.
    pub(crate) proof fn lemma_wf(&self)
        requires
            self.wf(),
        ensures
            self.binaries.wf(),
            self.manual_base_addresses.wf(),
            self.xrefs_cache.wf(),
            forall|k: Seq<char>| #[trigger] self.xrefs_cache.view().contains_key(k) ==> self.xrefs_cache.view()[k].wf(),
            self.custom_binary_paths_windows.wf(),
            self.custom_binary_paths_linux.wf(),
            self.vtables.wf(),
            self.strings_cache.wf(),
            forall|k: Seq<char>| #[trigger] self.strings_cache.view().contains_key(k) ==> self.strings_cache.view()[k].wf(),
            self.calls_targets_cache.wf(),
            forall|k: Seq<char>| #[trigger] self.calls_targets_view().contains_key(k) ==> is_sorted(self.calls_targets_view()[k]),
            self.binaries_view() == self.binaries.view().map_values(|v: Vec<u8>| v@),
            self.vtables_view() == self.vtables.view().map_values(|v: Vec<VTableInfo>| v@),
            self.calls_targets_view() == self.calls_targets_cache.view().map_values(|v: Vec<u64>| v@),
            self.xrefs_view() == self.xrefs_cache.view().map_values(|t: U64Store<Vec<u64>>| t.view().map_values(|v: Vec<u64>| v@)),
            self.strings_view() == self.strings_cache.view().map_values(|t: NamedStore<u64>| t.view()),
            self.manual_bases_view() == self.manual_base_addresses.view(),
            self.manual_base_order() == self.manual_base_addresses.key_seq(),
            self.binary_order() == self.binaries.key_seq(),
            self.os_view() == self.os@,
            self.game_path_view() == self.game_path@,
            self.game_type_view() == self.game_type@,
            self.process_modules_view() == self.process_modules@,
    {
    }

    pub closed spec fn game_path_view(&self) -> Seq<char> {
        self.game_path@
    }

    pub closed spec fn game_type_view(&self) -> Seq<char> {
        self.game_type@
    }

    pub closed spec fn os_view(&self) -> Seq<char> {
        self.os@
    }

    /// The loaded binaries, by name.
    pub closed spec fn binaries_view(&self) -> Map<Seq<char>, Seq<u8>> {
        self.binaries.view().map_values(|v: Vec<u8>| v@)
    }

    /// The module bases set by hand, by library name.
    pub closed spec fn manual_bases_view(&self) -> Map<Seq<char>, u64> {
        self.manual_base_addresses.view()
    }

    /// The names of the loaded binaries, in the order they are searched.
    pub closed spec fn binary_order(&self) -> Seq<Seq<char>> {
        self.binaries.key_seq()
    }

    /// The library names with a base set by hand, in the order they are tried.
    pub closed spec fn manual_base_order(&self) -> Seq<Seq<char>> {
        self.manual_base_addresses.key_seq()
    }

    /// The modules of the running process, as last handed in.
    pub closed spec fn process_modules_view(&self) -> Seq<ModuleEntry> {
        self.process_modules@
    }

    /// Paths set by hand for Windows binaries, by binary name.
    pub closed spec fn custom_windows_view(&self) -> Map<Seq<char>, Seq<char>> {
        self.custom_binary_paths_windows.view().map_values(|s: String| s@)
    }

    /// Paths set by hand for Linux binaries, by binary name.
    pub closed spec fn custom_linux_view(&self) -> Map<Seq<char>, Seq<char>> {
        self.custom_binary_paths_linux.view().map_values(|s: String| s@)
    }

    /// The vtables dumped per binary.
    pub closed spec fn vtables_view(&self) -> Map<Seq<char>, Seq<VTableInfo>> {
        self.vtables.view().map_values(|v: Vec<VTableInfo>| v@)
    }

    /// The sorted call targets cached per binary.
    pub closed spec fn calls_targets_view(&self) -> Map<Seq<char>, Seq<u64>> {
        self.calls_targets_cache.view().map_values(|v: Vec<u64>| v@)
    }

    /// The cross-reference tables cached per binary: target to referencing
    /// instructions.
    pub closed spec fn xrefs_view(&self) -> Map<Seq<char>, Map<u64, Seq<u64>>> {
        self.xrefs_cache.view().map_values(|t: U64Store<Vec<u64>>| t.view().map_values(|v: Vec<u64>| v@))
    }

    /// The string tables cached per binary: string to address.
    pub closed spec fn strings_view(&self) -> Map<Seq<char>, Map<Seq<char>, u64>> {
        self.strings_cache.view().map_values(|t: NamedStore<u64>| t.view())
    }

    /// A library for the game installed at `game_path` (the `game` folder),
    /// whose own binaries live in the `game_type` folder, on `os`.
    pub fn new(game_path: &str, game_type: &str, os: &str) -> (r: Self)
        ensures
            r.wf(),
            r.game_path_view() == game_path@,
            r.game_type_view() == game_type@,
            r.os_view() == os@,
            r.binaries_view().is_empty(),
            r.manual_bases_view().is_empty(),
            r.process_modules_view().len() == 0,
            r.custom_windows_view().is_empty(),
            r.custom_linux_view().is_empty(),
            r.vtables_view().is_empty(),
            r.calls_targets_view().is_empty(),
            r.xrefs_view().is_empty(),
            r.strings_view().is_empty(),
    {
        let r = S2BinLib {
            game_path: game_path.to_owned(),
            game_type: game_type.to_owned(),
            os: os.to_owned(),
            binaries: NamedStore::new(),
            manual_base_addresses: NamedStore::new(),
            process_modules: Vec::new(),
            xrefs_cache: NamedStore::new(),
            custom_binary_paths_windows: NamedStore::new(),
            custom_binary_paths_linux: NamedStore::new(),
            vtables: NamedStore::new(),
            strings_cache: NamedStore::new(),
            calls_targets_cache: NamedStore::new(),
        };
        proof {
            assert(r.binaries_view() =~= Map::empty());
            assert(r.custom_windows_view() =~= Map::empty());
            assert(r.custom_linux_view() =~= Map::empty());
            assert(r.vtables_view() =~= Map::empty());
            assert(r.calls_targets_view() =~= Map::empty());
            assert(r.xrefs_view() =~= Map::empty());
            assert(r.strings_view() =~= Map::empty());
        }
        r
    }

    pub(crate) fn is_windows_os(&self) -> (r: bool)
        ensures
            r == is_windows(self.os@),
            r == is_windows(self.os_view()),
    {
        str_eq(self.os.as_str(), "windows")
    }

    /// The platform directory of the game's binaries.
    fn get_os_name(&self) -> (r: String)
        ensures
            r@ == spec_os_dir_name(self.os@),
    {
        if self.is_windows_os() {
            "win64".to_owned()
        } else {
            "linuxsteamrt64".to_owned()
        }
    }

    /// The file name of library `lib_name` on this OS.
    pub fn get_os_lib_name(&self, lib_name: &str) -> (r: String)
        ensures
            r@ == spec_os_lib_name(self.os_view(), lib_name@),
    {
        if self.is_windows_os() {
            let mut s = lib_name.to_owned();
            s.append(".dll");
            s
        } else {
            let mut s = "lib".to_owned();
            s.append(lib_name);
            s.append(".so");
            s
        }
    }

    /// The OS this library was created for.
    pub fn get_os(&self) -> (r: String)
        ensures
            r@ == self.os_view(),
    {
        self.os.clone()
    }

    /// Replaces the list of modules loaded in the running process, which
    /// module lookups by name and by pointer consult.
    pub fn set_process_modules(&mut self, modules: Vec<ModuleEntry>)
        requires
            old(self).wf(),
        ensures
            final(self).wf(),
            final(self).process_modules_view() == modules@,
            final(self).manual_bases_view() == old(self).manual_bases_view(),
            final(self).manual_base_order() == old(self).manual_base_order(),
            final(self).same_except_modules(*old(self)),
    {
        self.process_modules = modules;
    }

    /// Sets the path of binary `binary_name` for `os` (matched without regard
    /// to case); an error for an OS other than Windows or Linux.
    pub fn set_custom_binary_path(&mut self, binary_name: &str, path: &str, os: &str) -> (r: Result<(), S2Error>)
        requires
            old(self).wf(),
        ensures
            final(self).wf(),
            unicode_lowercase(os@) == "windows"@ ==> r is Ok
                && final(self).custom_windows_view() == old(self).custom_windows_view().insert(binary_name@, path@)
                && final(self).custom_linux_view() == old(self).custom_linux_view(),
            unicode_lowercase(os@) != "windows"@ && unicode_lowercase(os@) == "linux"@ ==> r is Ok
                && final(self).custom_linux_view() == old(self).custom_linux_view().insert(binary_name@, path@)
                && final(self).custom_windows_view() == old(self).custom_windows_view(),
            unicode_lowercase(os@) != "windows"@ && unicode_lowercase(os@) != "linux"@ ==>
                r == Err::<(), S2Error>(S2Error::UnsupportedOs) && final(self).custom_windows_view() == old(self).custom_windows_view()
                && final(self).custom_linux_view() == old(self).custom_linux_view(),
            final(self).binaries_view() == old(self).binaries_view(),
            final(self).binary_order() == old(self).binary_order(),
            final(self).os_view() == old(self).os_view(),
            final(self).game_path_view() == old(self).game_path_view(),
            final(self).game_type_view() == old(self).game_type_view(),
            final(self).manual_bases_view() == old(self).manual_bases_view(),
            final(self).manual_base_order() == old(self).manual_base_order(),
            final(self).process_modules_view() == old(self).process_modules_view(),
            final(self).vtables_view() == old(self).vtables_view(),
            final(self).calls_targets_view() == old(self).calls_targets_view(),
            final(self).xrefs_view() == old(self).xrefs_view(),
            final(self).strings_view() == old(self).strings_view(),
            r is Err ==> *final(self) == *old(self),
    {
        let lower = to_lowercase(os);
        if str_eq(lower.as_str(), "windows") {
            self.custom_binary_paths_windows.insert(binary_name.to_owned(), path.to_owned());
            proof {
                assert(self.custom_windows_view() =~= old(self).custom_windows_view().insert(binary_name@, path@));
            }
            Ok(())
        } else if str_eq(lower.as_str(), "linux") {
            self.custom_binary_paths_linux.insert(binary_name.to_owned(), path.to_owned());
            proof {
                assert(self.custom_linux_view() =~= old(self).custom_linux_view().insert(binary_name@, path@));
            }
            Ok(())
        } else {
            Err(S2Error::UnsupportedOs)
        }
    }

    /// Path of binary `binary_name`: the path set by hand for this OS, or
    /// `<game>/<game type>/bin/<platform>/<file>` for the game's own binaries
    /// and `<game>/bin/<platform>/<file>` for the engine's.
    pub fn get_binary_path(&self, binary_name: &str) -> (r: String)
        requires
            self.wf(),
        ensures
            r@ == self.spec_binary_path(binary_name@),
    {
        let lower = to_lowercase(self.os.as_str());
        if str_eq(lower.as_str(), "windows") {
            if let Some(p) = self.custom_binary_paths_windows.get(binary_name) {
                return p.clone();
            }
        } else if str_eq(lower.as_str(), "linux") {
            if let Some(p) = self.custom_binary_paths_linux.get(binary_name) {
                return p.clone();
            }
        }
        let mut path = self.game_path.clone();
        if str_eq(binary_name, "server") || str_eq(binary_name, "client") || str_eq(binary_name, "matchmaking")
            || str_eq(binary_name, "host") {
            path = path_join_exec(path, self.game_type.as_str());
        }
        path = path_join_exec(path, "bin");
        let os_dir = self.get_os_name();
        path = path_join_exec(path, os_dir.as_str());
        let file = self.get_os_lib_name(binary_name);
        path = path_join_exec(path, file.as_str());
        path
    }

    /// The path `get_binary_path` computes.
    pub open spec fn spec_binary_path(&self, binary_name: Seq<char>) -> Seq<char> {
        let lower = unicode_lowercase(self.os_view());
        if lower == "windows"@ && self.custom_windows_view().contains_key(binary_name) {
            self.custom_windows_view()[binary_name]
        } else if lower != "windows"@ && lower == "linux"@ && self.custom_linux_view().contains_key(binary_name) {
            self.custom_linux_view()[binary_name]
        } else {
            self.default_binary_path(binary_name)
        }
    }

    /// The path of a binary without a path set by hand:
    /// `<game>/<game type>/bin/<platform>/<file>` for the game's own binaries
    /// and `<game>/bin/<platform>/<file>` for the engine's.
    pub open spec fn default_binary_path(&self, binary_name: Seq<char>) -> Seq<char> {
        let root = if is_game_binary(binary_name) {
            path_join(self.game_path_view(), self.game_type_view())
        } else {
            self.game_path_view()
        };
        path_join(
            path_join(path_join(root, "bin"@), spec_os_dir_name(self.os_view())),
            spec_os_lib_name(self.os_view(), binary_name),
        )
    }

    /// Whether binary `binary_name` is loaded.
    pub fn is_binary_loaded(&self, binary_name: &str) -> (r: bool)
        requires
            self.wf(),
        ensures
            r == self.binaries_view().contains_key(binary_name@),
    {
        self.binaries.contains_key(binary_name)
    }

    /// Stores the contents of binary `binary_name`, as read from its path;
    /// nothing changes when the file could not be read (`None`).
    pub fn load_binary(&mut self, binary_name: &str, file_contents: Option<Vec<u8>>)
        requires
            old(self).wf(),
        ensures
            final(self).wf(),
            match file_contents {
                Some(d) => final(self).binaries_view() == old(self).binaries_view().insert(binary_name@, d@),
                None => final(self).binaries_view() == old(self).binaries_view(),
            },
            final(self).unchanged_except_binaries(*old(self)),
    {
        if let Some(d) = file_contents {
            let ghost dv = d@;
            self.binaries.insert(binary_name.to_owned(), d);
            proof {
                assert(self.binaries_view() =~= old(self).binaries_view().insert(binary_name@, dv));
            }
        }
    }

    /// The installation, OS, loaded binaries, module bases, process modules
    /// and custom paths are as in `other`; only what was learned of the
    /// binaries may differ.
    pub open spec fn same_setup(&self, other: S2BinLib) -> bool {
        &&& self.game_path_view() == other.game_path_view()
        &&& self.game_type_view() == other.game_type_view()
        &&& self.os_view() == other.os_view()
        &&& self.binaries_view() == other.binaries_view()
        &&& self.binary_order() == other.binary_order()
        &&& self.manual_bases_view() == other.manual_bases_view()
        &&& self.manual_base_order() == other.manual_base_order()
        &&& self.process_modules_view() == other.process_modules_view()
        &&& self.custom_windows_view() == other.custom_windows_view()
        &&& self.custom_linux_view() == other.custom_linux_view()
    }

    /// A library has its own setup.
    pub proof fn lemma_same_setup_refl(&self)
        ensures
            self.same_setup(*self),
    {
    }

    /// Every spec function of the library reads only the setup, so two
    /// libraries with the same setup answer alike.
    pub proof fn lemma_same_setup(&self, other: S2BinLib)
        requires
            self.same_setup(other),
        ensures
            self.binaries_view() == other.binaries_view(),
            self.os_view() == other.os_view(),
            forall|b: Seq<char>| #[trigger] self.spec_module_base(b) == other.spec_module_base(b),
            forall|p: u64| #[trigger] self.spec_binary_name_by_ptr(p) == other.spec_binary_name_by_ptr(p),
    {
        assert forall|b: Seq<char>| #[trigger] self.spec_module_base(b) == other.spec_module_base(b) by {}
        assert forall|p: u64| #[trigger] self.spec_binary_name_by_ptr(p) == other.spec_binary_name_by_ptr(p) by {
            crate::scan::lemma_name_by_ptr_same(*self, other, p);
        }
    }

    /// Stores the cross-reference table and the sorted call targets of
    /// binary `binary_name`.
    pub(crate) fn set_xrefs(&mut self, binary_name: &str, xrefs: U64Store<Vec<u64>>, calls: Vec<u64>)
        requires
            old(self).wf(),
            xrefs.wf(),
            is_sorted(calls@),
        ensures
            final(self).wf(),
            final(self).same_setup(*old(self)),
            final(self).xrefs_view() == old(self).xrefs_view().insert(binary_name@, xrefs.view().map_values(|v: Vec<u64>| v@)),
            final(self).calls_targets_view() == old(self).calls_targets_view().insert(binary_name@, calls@),
            final(self).strings_view() == old(self).strings_view(),
            final(self).vtables_view() == old(self).vtables_view(),
    {
        let ghost xv = xrefs.view().map_values(|v: Vec<u64>| v@);
        let ghost cv = calls@;
        self.xrefs_cache.insert(binary_name.to_owned(), xrefs);
        self.calls_targets_cache.insert(binary_name.to_owned(), calls);
        proof {
            assert(self.xrefs_view() =~= old(self).xrefs_view().insert(binary_name@, xv));
            assert(self.calls_targets_view() =~= old(self).calls_targets_view().insert(binary_name@, cv));
        }
    }

    /// Stores the sorted call targets of binary `binary_name`.
    pub(crate) fn set_calls_targets(&mut self, binary_name: &str, calls: Vec<u64>)
        requires
            old(self).wf(),
            is_sorted(calls@),
        ensures
            final(self).wf(),
            final(self).same_setup(*old(self)),
            final(self).xrefs_view() == old(self).xrefs_view(),
            final(self).calls_targets_view() == old(self).calls_targets_view().insert(binary_name@, calls@),
            final(self).strings_view() == old(self).strings_view(),
            final(self).vtables_view() == old(self).vtables_view(),
    {
        let ghost cv = calls@;
        self.calls_targets_cache.insert(binary_name.to_owned(), calls);
        proof {
            assert(self.calls_targets_view() =~= old(self).calls_targets_view().insert(binary_name@, cv));
        }
    }

    /// Stores the string table of binary `binary_name`.
    pub(crate) fn set_strings(&mut self, binary_name: &str, strings: NamedStore<u64>)
        requires
            old(self).wf(),
            strings.wf(),
        ensures
            final(self).wf(),
            final(self).same_setup(*old(self)),
            final(self).xrefs_view() == old(self).xrefs_view(),
            final(self).calls_targets_view() == old(self).calls_targets_view(),
            final(self).strings_view() == old(self).strings_view().insert(binary_name@, strings.view()),
            final(self).vtables_view() == old(self).vtables_view(),
    {
        let ghost sv = strings.view();
        self.strings_cache.insert(binary_name.to_owned(), strings);
        proof {
            assert(self.strings_view() =~= old(self).strings_view().insert(binary_name@, sv));
        }
    }

    /// Stores the vtables of binary `binary_name`.
    pub(crate) fn set_vtables(&mut self, binary_name: &str, vtables: Vec<VTableInfo>)
        requires
            old(self).wf(),
        ensures
            final(self).wf(),
            final(self).same_setup(*old(self)),
            final(self).xrefs_view() == old(self).xrefs_view(),
            final(self).calls_targets_view() == old(self).calls_targets_view(),
            final(self).strings_view() == old(self).strings_view(),
            final(self).vtables_view() == old(self).vtables_view().insert(binary_name@, vtables@),
    {
        let ghost vv = vtables@;
        self.vtables.insert(binary_name.to_owned(), vtables);
        proof {
            assert(self.vtables_view() =~= old(self).vtables_view().insert(binary_name@, vv));
        }
    }

    /// Everything but the loaded binaries is as in `other`.
    pub open spec fn unchanged_except_binaries(&self, other: S2BinLib) -> bool {
        &&& self.game_path_view() == other.game_path_view()
        &&& self.game_type_view() == other.game_type_view()
        &&& self.os_view() == other.os_view()
        &&& self.manual_bases_view() == other.manual_bases_view()
        &&& self.manual_base_order() == other.manual_base_order()
        &&& self.process_modules_view() == other.process_modules_view()
        &&& self.custom_windows_view() == other.custom_windows_view()
        &&& self.custom_linux_view() == other.custom_linux_view()
        &&& self.vtables_view() == other.vtables_view()
        &&& self.calls_targets_view() == other.calls_targets_view()
        &&& self.xrefs_view() == other.xrefs_view()
        &&& self.strings_view() == other.strings_view()
    }

    /// The installation, OS, loaded binaries, custom paths and everything
    /// learned of the binaries are as in `other`: what changing the module
    /// bases or the process module list leaves alone.
    pub open spec fn same_except_modules(&self, other: S2BinLib) -> bool {
        &&& self.game_path_view() == other.game_path_view()
        &&& self.game_type_view() == other.game_type_view()
        &&& self.os_view() == other.os_view()
        &&& self.binaries_view() == other.binaries_view()
        &&& self.binary_order() == other.binary_order()
        &&& self.custom_windows_view() == other.custom_windows_view()
        &&& self.custom_linux_view() == other.custom_linux_view()
        &&& self.vtables_view() == other.vtables_view()
        &&& self.calls_targets_view() == other.calls_targets_view()
        &&& self.xrefs_view() == other.xrefs_view()
        &&& self.strings_view() == other.strings_view()
    }

    /// The contents of binary `binary_name`; an error when it is not loaded.
    pub fn get_binary(&self, binary_name: &str) -> (r: Result<&[u8], S2Error>)
        requires
            self.wf(),
        ensures
            match r {
                Ok(d) => self.binaries_view().contains_key(binary_name@) && d@ == self.binaries_view()[binary_name@],
                Err(e) => !self.binaries_view().contains_key(binary_name@) && e == S2Error::BinaryNotFound,
            },
    {
        match self.binaries.get(binary_name) {
            Some(v) => Ok(v.as_slice()),
            None => Err(S2Error::BinaryNotFound),
        }
    }

    /// Forgets binary `binary_name`.
    pub fn unload_binary(&mut self, binary_name: &str)
        requires
            old(self).wf(),
        ensures
            final(self).wf(),
            final(self).binaries_view() == old(self).binaries_view().remove(binary_name@),
            final(self).unchanged_except_binaries(*old(self)),
    {
        self.binaries.remove(binary_name);
        proof {
            assert(self.binaries_view() =~= old(self).binaries_view().remove(binary_name@));
        }
    }

    /// Forgets every loaded binary.
    pub fn unload_all_binaries(&mut self)
        requires
            old(self).wf(),
        ensures
            final(self).wf(),
            final(self).binaries_view().is_empty(),
            final(self).unchanged_except_binaries(*old(self)),
    {
        self.binaries = NamedStore::new();
        proof {
            assert(self.binaries_view() =~= Map::empty());
        }
    }

    /// Sets the base of library `lib_name` to that of the process module
    /// holding `pointer` (0 when none does).
    pub fn set_module_base_from_pointer(&mut self, lib_name: &str, pointer: u64)
        requires
            old(self).wf(),
        ensures
            final(self).wf(),
            final(self).manual_bases_view() == old(self).manual_bases_view().insert(
                lib_name@,
                match spec_module_from_pointer(old(self).process_modules_view(), pointer) {
                    Some((_, base)) => base,
                    None => 0,
                },
            ),
            final(self).process_modules_view() == old(self).process_modules_view(),
            final(self).same_except_modules(*old(self)),
    {
        let base = get_module_base_from_pointer(self.process_modules.as_slice(), pointer);
        self.manual_base_addresses.insert(lib_name.to_owned(), base);
    }

    /// Forgets the base set by hand for library `lib_name`.
    pub fn clear_module_base_address(&mut self, lib_name: &str)
        requires
            old(self).wf(),
        ensures
            final(self).wf(),
            final(self).manual_bases_view() == old(self).manual_bases_view().remove(lib_name@),
            final(self).process_modules_view() == old(self).process_modules_view(),
            final(self).same_except_modules(*old(self)),
    {
        self.manual_base_addresses.remove(lib_name);
    }

    /// The process module that `get_module_base_address` finds for a module
    /// file name: on Windows the first whose name equals it ignoring case, as
    /// the loader's lookup by name does; elsewhere the first whose path
    /// contains it, as a line of the process maps does.
    pub open spec fn spec_process_module_base(&self, module_name: Seq<char>) -> Option<u64> {
        spec_find_module(self.os_view(), self.process_modules_view(), module_name)
    }

    /// Base address of library `lib_name` in the running process: the base
    /// set by hand, else that of the process module of its file name; an
    /// error when neither exists.
    pub fn get_module_base_address(&self, lib_name: &str) -> (r: Result<u64, S2Error>)
        requires
            self.wf(),
        ensures
            r == self.spec_module_base(lib_name@),
    {
        if let Some(b) = self.manual_base_addresses.get(lib_name) {
            return Ok(*b);
        }
        let module_name = self.get_os_lib_name(lib_name);
        let windows = self.is_windows_os();
        let wanted = to_lowercase(module_name.as_str());
        let mut i: usize = 0;
        proof {
            assert(self.process_modules@.skip(0) == self.process_modules@);
        }
        while i < self.process_modules.len()
            invariant
                self.wf(),
                i <= self.process_modules@.len(),
                windows == is_windows(self.os@),
                !self.manual_base_addresses.view().contains_key(lib_name@),
                wanted@ == unicode_lowercase(module_name@),
                module_name@ == spec_os_lib_name(self.os@, lib_name@),
                spec_find_module(self.os@, self.process_modules@, module_name@)
                    == spec_find_module(self.os@, self.process_modules@.skip(i as int), module_name@),
            decreases self.process_modules@.len() - i,
        {
            proof {
                assert(self.process_modules@.skip(i as int).drop_first() =~= self.process_modules@.skip(i + 1));
                assert(self.process_modules@.skip(i as int)[0] == self.process_modules@[i as int]);
            }
            let m = &self.process_modules[i];
            let hit = if windows {
                let have = to_lowercase(m.name.as_str());
                str_eq(have.as_str(), wanted.as_str())
            } else {
                str_contains(m.name.as_str(), module_name.as_str())
            };
            if hit {
                return Ok(m.base);
            }
            i = i + 1;
        }
        Err(S2Error::ModuleNotLoaded)
    }

    /// What `get_module_base_address` returns.
    pub open spec fn spec_module_base(&self, lib_name: Seq<char>) -> Result<u64, S2Error> {
        if self.manual_bases_view().contains_key(lib_name) {
            Ok(self.manual_bases_view()[lib_name])
        } else {
            match spec_find_module(self.os_view(), self.process_modules_view(), spec_os_lib_name(self.os_view(), lib_name)) {
                Some(b) => Ok(b),
                None => Err(S2Error::ModuleNotLoaded),
            }
        }
    }

    /// Base address of the process module that holds `ptr`; when a base was
    /// set by hand for a library whose file name occurs in that module's
    /// name, that base instead (the first such, in the order tried). An error
    /// when no process module holds `ptr`.
    pub fn module_from_pointer(&self, ptr: u64) -> (r: Result<u64, S2Error>)
        requires
            self.wf(),
        ensures
            match spec_module_from_pointer(self.process_modules_view(), ptr) {
                None => r == Err::<u64, S2Error>(S2Error::ModuleNotFound),
                Some((name, base)) => r == Ok::<u64, S2Error>(
                    match spec_first_manual_match(self.os_view(), self.manual_base_order(), self.manual_bases_view(), name) {
                        Some(b) => b,
                        None => base,
                    },
                ),
            },
    {
        let (name, base) = match module_from_pointer(self.process_modules.as_slice(), ptr) {
            Some(m) => m,
            None => return Err(S2Error::ModuleNotFound),
        };
        assert(spec_module_from_pointer(self.process_modules@, ptr) == Some((name@, base)));
        let ghost keys = self.manual_base_addresses.key_seq();
        let ghost view = self.manual_base_addresses.view();
        let n = self.manual_base_addresses.len();
        let mut i: usize = 0;
        proof {
            assert(keys.skip(0) == keys);
        }
        while i < n
            invariant
                self.wf(),
                n == keys.len(),
                keys == self.manual_base_addresses.key_seq(),
                view == self.manual_base_addresses.view(),
                i <= n,
                spec_first_manual_match(self.os@, keys, view, name@) == spec_first_manual_match(self.os@, keys.skip(i as int), view, name@),
                spec_module_from_pointer(self.process_modules@, ptr) == Some((name@, base)),
            decreases n - i,
        {
            proof {
                assert(keys.skip(i as int).drop_first() =~= keys.skip(i + 1));
                assert(keys.skip(i as int)[0] == keys[i as int]);
            }
            let key = self.manual_base_addresses.key_at(i);
            let lib = self.get_os_lib_name(key.as_str());
            if str_contains(name.as_str(), lib.as_str()) {
                let v = *self.manual_base_addresses.value_at(i);
                proof {
                    assert(key@ == keys[i as int]);
                    assert(lib@ == spec_os_lib_name(self.os@, keys.skip(i as int)[0]));
                    assert(spec_first_manual_match(self.os@, keys.skip(i as int), view, name@) == Some(view[keys[i as int]]));
                }
                return Ok(v);
            }
            i = i + 1;
        }
        Ok(base)
    }

    /// The section table of a loaded binary, or why there is none.
    pub open spec fn spec_sections(&self, binary_name: Seq<char>) -> Result<Seq<SectionRecord>, S2Error> {
        if !self.binaries_view().contains_key(binary_name) {
            Err(S2Error::BinaryNotFound)
        } else {
            match object_section_table(self.binaries_view()[binary_name]) {
                Some(t) => Ok(t),
                None => Err(S2Error::ObjectParse),
            }
        }
    }

    /// The section table of binary `binary_name`.
    pub(crate) fn sections_of(&self, binary_name: &str) -> (r: Result<Vec<SectionRecord>, S2Error>)
        requires
            self.wf(),
        ensures
            match self.spec_sections(binary_name@) {
                Ok(t) => r matches Ok(v) && v@ == t,
                Err(e) => r == Err::<Vec<SectionRecord>, S2Error>(e),
            },
    {
        let data = self.get_binary(binary_name)?;
        read_section_table(data)
    }

    /// The image base of a loaded binary, or why there is none.
    pub open spec fn spec_image_base_of(&self, binary_name: Seq<char>) -> Result<u64, S2Error> {
        if !self.binaries_view().contains_key(binary_name) {
            Err(S2Error::BinaryNotFound)
        } else {
            match object_file_kind(self.binaries_view()[binary_name]) {
                None => Err(S2Error::ObjectParse),
                Some(k) => match spec_image_base(k) {
                    Some(b) => Ok(b),
                    None => Err(S2Error::UnsupportedFormat),
                },
            }
        }
    }

    /// The image base of binary `binary_name`: a PE file's preferred base,
    /// 0 for ELF.
    pub fn get_image_base(&self, binary_name: &str) -> (r: Result<u64, S2Error>)
        requires
            self.wf(),
        ensures
            r == self.spec_image_base_of(binary_name@),
    {
        let data = self.get_binary(binary_name)?;
        match read_file_kind(data)? {
            FileKindModel::Pe32 { image_base } => Ok(image_base),
            FileKindModel::Pe64 { image_base } => Ok(image_base),
            FileKindModel::Elf32 => Ok(0),
            FileKindModel::Elf64 => Ok(0),
            FileKindModel::Other { .. } => Err(S2Error::UnsupportedFormat),
        }
    }

    /// Address of a file offset of binary `binary_name`, or why there is none.
    pub open spec fn spec_offset_to_rva(&self, binary_name: Seq<char>, file_offset: u64) -> Result<u64, S2Error> {
        match self.spec_sections(binary_name) {
            Err(e) => Err(e),
            Ok(t) => match spec_file_offset_to_rva(t, file_offset) {
                Some(v) => Ok(v),
                None => Err(S2Error::OffsetNotMapped),
            },
        }
    }

    /// File offset of an address of binary `binary_name`, or why there is none.
    pub open spec fn spec_rva_to_offset(&self, binary_name: Seq<char>, rva: u64) -> Result<u64, S2Error> {
        match self.spec_sections(binary_name) {
            Err(e) => Err(e),
            Ok(t) => match spec_rva_to_file_offset(t, rva) {
                Some(v) => Ok(v),
                None => Err(S2Error::AddressNotMapped),
            },
        }
    }

    /// The address of file offset `file_offset` of binary `binary_name`.
    pub fn file_offset_to_rva(&self, binary_name: &str, file_offset: u64) -> (r: Result<u64, S2Error>)
        requires
            self.wf(),
        ensures
            r == self.spec_offset_to_rva(binary_name@, file_offset),
    {
        let secs = self.sections_of(binary_name)?;
        file_offset_to_rva(&secs, file_offset)
    }

    /// The file offset of address `rva` of binary `binary_name`.
    pub fn rva_to_file_offset(&self, binary_name: &str, rva: u64) -> (r: Result<u64, S2Error>)
        requires
            self.wf(),
        ensures
            r == self.spec_rva_to_offset(binary_name@, rva),
    {
        let secs = self.sections_of(binary_name)?;
        rva_to_file_offset(&secs, rva)
    }

    /// Whether the section holding file offset `file_offset` is executable.
    pub(crate) fn is_file_offset_executable(&self, binary_name: &str, file_offset: u64) -> (r: Result<bool, S2Error>)
        requires
            self.wf(),
        ensures
            match self.spec_sections(binary_name@) {
                Err(e) => r == Err::<bool, S2Error>(e),
                Ok(t) => match spec_file_offset_executable(t, file_offset) {
                    Some(v) => r == Ok::<bool, S2Error>(v),
                    None => r == Err::<bool, S2Error>(S2Error::OffsetNotMapped),
                },
            },
    {
        let secs = self.sections_of(binary_name)?;
        is_file_offset_executable(&secs, file_offset)
    }

    /// The file range of the section named `section_name`, as (start, end).
    pub open spec fn spec_section_range(&self, binary_name: Seq<char>, section_name: Seq<char>) -> Result<(u64, u64), S2Error> {
        if !self.binaries_view().contains_key(binary_name) {
            Err(S2Error::BinaryNotFound)
        } else {
            match object_named_section_range(self.binaries_view()[binary_name], section_name) {
                None => Err(S2Error::ObjectParse),
                Some(None) => Err(S2Error::SectionNotFound),
                Some(Some(None)) => Err(S2Error::SectionHasNoFileData),
                Some(Some(Some((start, size)))) => Ok((start, start.wrapping_add(size))),
            }
        }
    }

    /// Start and end of the file bytes of section `section_name`.
    pub(crate) fn get_section_range(&self, binary_name: &str, section_name: &str) -> (r: Result<(u64, u64), S2Error>)
        requires
            self.wf(),
        ensures
            r == self.spec_section_range(binary_name@, section_name@),
    {
        let data = self.get_binary(binary_name)?;
        match read_named_section_range(data, section_name)? {
            None => Err(S2Error::SectionNotFound),
            Some(None) => Err(S2Error::SectionHasNoFileData),
            Some(Some((start, size))) => Ok((start, start.wrapping_add(size))),
        }
    }

    /// What `mem_address_to_rva` returns.
    pub open spec fn spec_mem_to_rva(&self, binary_name: Seq<char>, address: u64) -> Result<u64, S2Error> {
        match self.spec_module_base(binary_name) {
            Err(e) => Err(e),
            Ok(base) => match self.spec_image_base_of(binary_name) {
                Err(e) => Err(e),
                Ok(ib) => Ok(address.wrapping_sub(base).wrapping_add(ib)),
            },
        }
    }

    /// What `rva_to_mem_address` returns.
    pub open spec fn spec_rva_to_mem(&self, binary_name: Seq<char>, rva: u64) -> Result<u64, S2Error> {
        match self.spec_module_base(binary_name) {
            Err(e) => Err(e),
            Ok(base) => match self.spec_image_base_of(binary_name) {
                Err(e) => Err(e),
                Ok(ib) => Ok(rva.wrapping_sub(ib).wrapping_add(base)),
            },
        }
    }

    /// The address in binary `binary_name` of the process address `address`:
    /// `address - module base + image base`.
    pub fn mem_address_to_rva(&self, binary_name: &str, address: u64) -> (r: Result<u64, S2Error>)
        requires
            self.wf(),
        ensures
            r == self.spec_mem_to_rva(binary_name@, address),
    {
        let base = self.get_module_base_address(binary_name)?;
        let image_base = self.get_image_base(binary_name)?;
        Ok(address.wrapping_sub(base).wrapping_add(image_base))
    }

    /// The process address of address `address` of binary `binary_name`:
    /// `address - image base + module base`.
    pub fn rva_to_mem_address(&self, binary_name: &str, address: u64) -> (r: Result<u64, S2Error>)
        requires
            self.wf(),
        ensures
            r == self.spec_rva_to_mem(binary_name@, address),
    {
        let base = self.get_module_base_address(binary_name)?;
        let image_base = self.get_image_base(binary_name)?;
        Ok(address.wrapping_sub(image_base).wrapping_add(base))
    }

    /// What `read_by_file_offset` returns.
    pub open spec fn spec_read_at(&self, binary_name: Seq<char>, file_offset: u64, size: usize) -> Result<Seq<u8>, S2Error> {
        if !self.binaries_view().contains_key(binary_name) {
            Err(S2Error::BinaryNotFound)
        } else {
            let d = self.binaries_view()[binary_name];
            if file_offset + size <= d.len() {
                Ok(d.subrange(file_offset as int, file_offset + size))
            } else {
                Err(S2Error::ReadOutOfBounds)
            }
        }
    }

    /// `size` bytes of binary `binary_name` at file offset `file_offset`; an
    /// error when they run past the end of the file.
    pub fn read_by_file_offset(&self, binary_name: &str, file_offset: u64, size: usize) -> (r: Result<&[u8], S2Error>)
        requires
            self.wf(),
        ensures
            match self.spec_read_at(binary_name@, file_offset, size) {
                Ok(b) => r matches Ok(s) && s@ == b,
                Err(e) => r == Err::<&[u8], S2Error>(e),
            },
    {
        let data = self.get_binary(binary_name)?;
        if file_offset > data.len() as u64 || size as u64 > data.len() as u64 - file_offset {
            return Err(S2Error::ReadOutOfBounds);
        }
        let lo = file_offset as usize;
        Ok(vstd::slice::slice_subrange(data, lo, lo + size))
    }

    /// What `read_by_rva` returns.
    pub open spec fn spec_read_rva(&self, binary_name: Seq<char>, rva: u64, size: usize) -> Result<Seq<u8>, S2Error> {
        match self.spec_rva_to_offset(binary_name, rva) {
            Err(e) => Err(e),
            Ok(off) => self.spec_read_at(binary_name, off, size),
        }
    }

    /// `size` bytes of binary `binary_name` at address `address`.
    pub fn read_by_rva(&self, binary_name: &str, address: u64, size: usize) -> (r: Result<&[u8], S2Error>)
        requires
            self.wf(),
        ensures
            match self.spec_read_rva(binary_name@, address, size) {
                Ok(b) => r matches Ok(s) && s@ == b,
                Err(e) => r == Err::<&[u8], S2Error>(e),
            },
    {
        let off = self.rva_to_file_offset(binary_name, address)?;
        self.read_by_file_offset(binary_name, off, size)
    }

    /// `size` bytes of binary `binary_name` at process address `address`.
    pub fn read_by_mem_address(&self, binary_name: &str, address: u64, size: usize) -> (r: Result<&[u8], S2Error>)
        requires
            self.wf(),
        ensures
            match self.spec_mem_to_rva(binary_name@, address) {
                Err(e) => r == Err::<&[u8], S2Error>(e),
                Ok(rva) => match self.spec_read_rva(binary_name@, rva, size) {
                    Ok(b) => r matches Ok(s) && s@ == b,
                    Err(e) => r == Err::<&[u8], S2Error>(e),
                },
            },
    {
        let rva = self.mem_address_to_rva(binary_name, address)?;
        self.read_by_rva(binary_name, rva, size)
    }

    /// The address maps to a file offset inside the file, past its first byte.
    pub open spec fn spec_is_valid_rva(&self, binary_name: Seq<char>, rva: u64) -> bool {
        match self.spec_rva_to_offset(binary_name, rva) {
            Ok(off) => 0 < off && off < self.binaries_view()[binary_name].len(),
            Err(_) => false,
        }
    }

    /// Whether address `rva` of binary `binary_name` maps into the file.
    pub(crate) fn is_valid_rva(&self, binary_name: &str, rva: u64) -> (r: bool)
        requires
            self.wf(),
        ensures
            r == self.spec_is_valid_rva(binary_name@, rva),
    {
        match self.rva_to_file_offset(binary_name, rva) {
            Err(_) => false,
            Ok(off) => {
                let data = match self.get_binary(binary_name) {
                    Ok(d) => d,
                    Err(_) => return false,
                };
                off > 0 && off < data.len() as u64
            },
        }
    }

    /// What `is_valid_executable_rva` returns: `false` for an address that
    /// does not map into the file; else whether the section whose file range
    /// holds its offset is executable, an error when no section's does.
    pub open spec fn spec_is_valid_executable_rva(&self, binary_name: Seq<char>, rva: u64) -> Result<bool, S2Error> {
        if !self.spec_is_valid_rva(binary_name, rva) {
            Ok(false)
        } else {
            let off = self.spec_rva_to_offset(binary_name, rva).unwrap();
            match spec_file_offset_executable(self.spec_sections(binary_name).unwrap(), off) {
                Some(b) => Ok(b),
                None => Err(S2Error::OffsetNotMapped),
            }
        }
    }

    /// Whether address `rva` of binary `binary_name` lies in executable code.
    pub(crate) fn is_valid_executable_rva(&self, binary_name: &str, rva: u64) -> (r: Result<bool, S2Error>)
        requires
            self.wf(),
        ensures
            r == self.spec_is_valid_executable_rva(binary_name@, rva),
    {
        if !self.is_valid_rva(binary_name, rva) {
            return Ok(false);
        }
        let off = self.rva_to_file_offset(binary_name, rva)?;
        self.is_file_offset_executable(binary_name, off)
    }
}

/// The base of the first process module whose name matches `module_name`.
pub open spec fn spec_find_module(os: Seq<char>, modules: Seq<ModuleEntry>, module_name: Seq<char>) -> Option<u64>
    decreases modules.len(),
{
    if modules.len() == 0 {
        None
    } else if (if is_windows(os) {
        unicode_lowercase(modules[0].name@) == unicode_lowercase(module_name)
    } else {
        contains_chars(modules[0].name@, module_name)
    }) {
        Some(modules[0].base)
    } else {
        spec_find_module(os, modules.drop_first(), module_name)
    }
}

/// The base set by hand for the first library, in `keys` order, whose file
/// name occurs in `module_name`.
pub open spec fn spec_first_manual_match(os: Seq<char>, keys: Seq<Seq<char>>, bases: Map<Seq<char>, u64>, module_name: Seq<char>) -> Option<u64>
    decreases keys.len(),
{
    if keys.len() == 0 {
        None
    } else if contains_chars(module_name, spec_os_lib_name(os, keys[0])) {
        Some(bases[keys[0]])
    } else {
        spec_first_manual_match(os, keys.drop_first(), bases, module_name)
    }
}

/// `base` joined with `part`; see `path_join`.
pub fn path_join_exec(base: String, part: &str) -> (r: String)
    ensures
        r@ == path_join(base@, part@),
{
    if part.unicode_len() > 0 && part.get_char(0) == '/' {
        return part.to_owned();
    }
    let n = base.as_str().unicode_len();
    if n == 0 || base.as_str().get_char(n - 1) == '/' {
        let mut b = base;
        b.append(part);
        b
    } else {
        let mut b = base;
        b.append("/");
        b.append(part);
        proof {
            reveal_strlit("/");
        }
        b
    }
}

} // verus!
