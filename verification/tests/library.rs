use s2binlib::decode::{code_has_path_index_compare, xref_target_of_bytes};
use s2binlib::error::S2Error;
use s2binlib::jit::trampoline_code;
use s2binlib::memory::{parse_maps_line, ModuleEntry};
use s2binlib::pattern::{find_pattern_simd, parse_pattern_string};
use s2binlib::s2binlib::{path_join_exec, S2BinLib};
use s2binlib::scan::ScanStep;
use s2binlib::strings::sorted_string_entries;
use s2binlib::text::build_ida_signature;
use s2binlib::view::file_view;
use s2binlib::vtable::{BaseClassInfo, BaseClassModel, VTableInfo, VTableModel};
use s2binlib::dumps::vtable_short_map;
use s2binlib::vtdump::vtable_has_base;

#[test]
fn find_func_start_rva_falls_back_to_xref_without_vtable_match() {
    let mut library = S2BinLib::new(".", "csgo", "windows");
    library.insert_calls_targets("server", vec![0x100]);

    assert_eq!(library.find_func_start_rva("server", 0x200).unwrap(), 0x100);
}

#[test]
fn find_func_start_rva_returns_error_without_candidates() {
    let library = S2BinLib::new(".", "csgo", "windows");

    assert!(library.find_func_start_rva("server", 0x200).is_err());
}

#[test]
fn test_s2binlib() {
    let mut s2binlib = S2BinLib::new("F:/cs2server/cs2/game", "csgo", "windows");

    s2binlib.load_binary("server", None);
    assert!(!s2binlib.is_binary_loaded("server"));
    assert_eq!(s2binlib.get_binary("server").unwrap_err(), S2Error::BinaryNotFound);
}

fn put16(d: &mut Vec<u8>, at: usize, v: u16) {
    d[at..at + 2].copy_from_slice(&v.to_le_bytes());
}

fn put32(d: &mut Vec<u8>, at: usize, v: u32) {
    d[at..at + 4].copy_from_slice(&v.to_le_bytes());
}

fn put64(d: &mut Vec<u8>, at: usize, v: u64) {
    d[at..at + 8].copy_from_slice(&v.to_le_bytes());
}

#[allow(clippy::too_many_arguments)]
fn section_header(d: &mut Vec<u8>, at: usize, name: u32, kind: u32, flags: u64, addr: u64, offset: u64, size: u64) {
    put32(d, at, name);
    put32(d, at + 4, kind);
    put64(d, at + 8, flags);
    put64(d, at + 16, addr);
    put64(d, at + 24, offset);
    put64(d, at + 32, size);
    put64(d, at + 48, 1);
}

/// A small 64-bit ELF shared object:
/// `.text` at file offset 0x100 (address 0x1100): `ret; int3 * 15` then, at
/// 0x1110, `lea rax, [rip + 0xe9]` (to 0x1200), `call 0x1100`, `ret`;
/// `.rodata` at 0x200 (address 0x1200): "hello world", "abc",
/// "zeta_string", "alpha_string", each ending in a zero byte;
/// `.shstrtab` at 0x300; the section headers at 0x400.
fn sample_elf() -> Vec<u8> {
    let mut d = vec![0u8; 0x500];
    d[0..4].copy_from_slice(&[0x7F, b'E', b'L', b'F']);
    d[4] = 2;
    d[5] = 1;
    d[6] = 1;
    put16(&mut d, 16, 3);
    put16(&mut d, 18, 0x3E);
    put32(&mut d, 20, 1);
    put64(&mut d, 40, 0x400);
    put16(&mut d, 52, 64);
    put16(&mut d, 54, 56);
    put16(&mut d, 58, 64);
    put16(&mut d, 60, 4);
    put16(&mut d, 62, 3);

    let text: [u8; 29] = [
        0xC3, 0xCC, 0xCC, 0xCC, 0xCC, 0xCC, 0xCC, 0xCC, 0xCC, 0xCC, 0xCC, 0xCC, 0xCC, 0xCC, 0xCC, 0xCC,
        0x48, 0x8D, 0x05, 0xE9, 0x00, 0x00, 0x00,
        0xE8, 0xE4, 0xFF, 0xFF, 0xFF,
        0xC3,
    ];
    d[0x100..0x100 + text.len()].copy_from_slice(&text);
    for b in d[0x100 + text.len()..0x140].iter_mut() {
        *b = 0xCC;
    }
    let rodata = b"hello world\0abc\0zeta_string\0alpha_string\0";
    d[0x200..0x200 + rodata.len()].copy_from_slice(rodata);
    let shstrtab = b"\0.text\0.rodata\0.shstrtab\0";
    d[0x300..0x300 + shstrtab.len()].copy_from_slice(shstrtab);

    section_header(&mut d, 0x440, 1, 1, 6, 0x1100, 0x100, 0x40);
    section_header(&mut d, 0x480, 7, 1, 2, 0x1200, 0x200, 0x40);
    section_header(&mut d, 0x4C0, 15, 3, 0, 0, 0x300, shstrtab.len() as u64);
    d
}

fn loaded(os: &str) -> S2BinLib {
    let mut lib = S2BinLib::new("/game", "csgo", os);
    lib.load_binary("server", Some(sample_elf()));
    lib
}

#[test]
fn read_after_load_gives_the_file_bytes() {
    let lib = loaded("linux");
    assert!(lib.is_binary_loaded("server"));
    assert_eq!(lib.get_binary("server").unwrap().len(), 0x500);
    assert_eq!(lib.read_by_file_offset("server", 0x200, 5).unwrap(), b"hello");
    assert_eq!(lib.read_by_file_offset("server", 0x4FF, 2).unwrap_err(), S2Error::ReadOutOfBounds);
    assert_eq!(lib.read_by_file_offset("client", 0, 1).unwrap_err(), S2Error::BinaryNotFound);
    assert_eq!(lib.get_image_base("server").unwrap(), 0);
}

#[test]
fn unload_forgets_the_binary() {
    let mut lib = loaded("linux");
    lib.load_binary("client", Some(vec![1, 2, 3]));
    lib.unload_binary("server");
    assert_eq!(lib.read_by_file_offset("server", 0, 1).unwrap_err(), S2Error::BinaryNotFound);
    assert_eq!(lib.read_by_file_offset("client", 1, 2).unwrap(), &[2, 3]);
    lib.unload_all_binaries();
    assert!(!lib.is_binary_loaded("client"));
}

#[test]
fn file_offsets_and_addresses_map_through_the_sections() {
    let lib = loaded("linux");
    assert_eq!(lib.file_offset_to_rva("server", 0x205).unwrap(), 0x1205);
    assert_eq!(lib.rva_to_file_offset("server", 0x1205).unwrap(), 0x205);
    assert_eq!(lib.rva_to_file_offset("server", 0x1110).unwrap(), 0x110);
    assert_eq!(lib.file_offset_to_rva("server", 0x50).unwrap_err(), S2Error::OffsetNotMapped);
    assert_eq!(lib.rva_to_file_offset("server", 0x9999).unwrap_err(), S2Error::AddressNotMapped);
    assert_eq!(lib.read_by_rva("server", 0x1200, 5).unwrap(), b"hello");
}

#[test]
fn image_base_of_non_object_file_is_a_parse_error() {
    let mut lib = S2BinLib::new("/game", "csgo", "linux");
    lib.load_binary("junk", Some(vec![0u8; 64]));
    assert_eq!(lib.get_image_base("junk").unwrap_err(), S2Error::ObjectParse);
}

#[test]
fn strings_are_found_by_their_bytes() {
    let lib = loaded("linux");
    assert_eq!(lib.find_string_rva("server", "hello world").unwrap(), 0x1200);
    assert_eq!(lib.find_string_rva("server", "zeta_string").unwrap(), 0x1210);
    assert_eq!(lib.find_string_rva("server", "no such text").unwrap_err(), S2Error::PatternNotFound);
    assert_eq!(lib.read_string("server", 0x200).unwrap(), "hello world");
    assert_eq!(lib.read_string("server", 0x20C).unwrap(), "abc");
}

#[test]
fn read_string_without_terminator_fails() {
    let mut lib = S2BinLib::new("/game", "csgo", "linux");
    lib.load_binary("raw", Some(b"abc".to_vec()));
    assert_eq!(lib.read_string("raw", 0).unwrap_err(), S2Error::UnterminatedString);
}

#[test]
fn pattern_scan_finds_the_first_match() {
    let lib = loaded("linux");
    assert_eq!(lib.pattern_scan_rva("server", "68 65 ? 6C 6F").unwrap(), 0x1200);
    assert_eq!(lib.pattern_scan_rva("server", "48 8D 05 ?? ?? ?? ?? E8").unwrap(), 0x1110);
    assert_eq!(lib.pattern_scan_rva("server", "DE AD BE EF").unwrap_err(), S2Error::PatternNotFound);
    match lib.pattern_scan_step("server", b"l", &[], 0).unwrap() {
        ScanStep::Hit { rva, next_offset } => {
            assert_eq!(rva, 0x1202);
            assert_eq!(next_offset, 0x203);
        },
        ScanStep::Finished => panic!("expected a match"),
    }
}

#[test]
fn pattern_scan_all_reports_each_match() {
    let lib = loaded("linux");
    let seen = std::cell::RefCell::new(Vec::new());
    let r = lib.pattern_scan_all_rva("server", "61", |i, rva| {
        seen.borrow_mut().push((i, rva));
        false
    });
    assert_eq!(r, Err(S2Error::PatternNotFound));
    assert_eq!(
        seen.into_inner(),
        vec![(0, 0x120C), (1, 0x1213), (2, 0x121C), (3, 0x1220), (4, 0xB), (5, 0xD), (6, 0x16)]
    );

    let seen = std::cell::RefCell::new(Vec::new());
    let r = lib.pattern_scan_all_rva("server", "61", |i, rva| {
        seen.borrow_mut().push((i, rva));
        i == 2
    });
    assert_eq!(r, Ok(()));
    assert_eq!(seen.into_inner(), vec![(0, 0x120C), (1, 0x1213), (2, 0x121C)]);
}

#[test]
fn pattern_strings_parse_into_bytes_and_wildcards() {
    let (bytes, wild) = parse_pattern_string("48 ? 8B ?? 05");
    assert_eq!(bytes, vec![0x48, 0, 0x8B, 0, 0x05]);
    assert_eq!(wild, vec![1, 3]);
    let data = [0x10, 0x48, 0x99, 0x8B, 0x77, 0x05];
    assert_eq!(find_pattern_simd(&data, &bytes, &wild).unwrap(), 1);
    assert_eq!(find_pattern_simd(&data, &[0x01, 0x02], &[]).unwrap_err(), S2Error::PatternNotFound);
}

#[test]
fn signatures_render_as_ida_text() {
    let sig = [(0x48u8, false), (0x8Bu8, false), (0u8, true), (0x05u8, false)];
    assert_eq!(build_ida_signature(&sig), "48 8B ? 05");
}

#[test]
fn module_addresses_convert_both_ways() {
    let mut lib = loaded("linux");
    assert_eq!(lib.rva_to_mem_address("server", 0x1200).unwrap_err(), S2Error::ModuleNotLoaded);
    lib.set_process_modules(vec![ModuleEntry {
        name: "/game/bin/linuxsteamrt64/libserver.so".to_string(),
        base: 0x7f00_0000_0000,
        end: 0x7f00_0010_0000,
    }]);
    assert_eq!(lib.get_module_base_address("server").unwrap(), 0x7f00_0000_0000);
    assert_eq!(lib.rva_to_mem_address("server", 0x1200).unwrap(), 0x7f00_0000_1200);
    assert_eq!(lib.mem_address_to_rva("server", 0x7f00_0000_1200).unwrap(), 0x1200);
    assert_eq!(lib.find_string("server", "hello world").unwrap(), 0x7f00_0000_1200);
    let seen = std::cell::RefCell::new(Vec::new());
    let r = lib.pattern_scan_all("server", "61", |i, a| {
        seen.borrow_mut().push((i, a));
        true
    });
    assert_eq!(r, Ok(()));
    assert_eq!(seen.into_inner(), vec![(0, 0x7f00_0000_120C)]);
    assert_eq!(lib.read_by_mem_address("server", 0x7f00_0000_1200, 5).unwrap(), b"hello");
    assert_eq!(lib.get_binary_name_by_ptr(0x7f00_0000_0010).unwrap(), "server");
}

#[test]
fn module_bases_set_by_hand_come_first() {
    let mut lib = S2BinLib::new("/game", "csgo", "windows");
    lib.set_process_modules(vec![
        ModuleEntry { name: "engine2.dll".to_string(), base: 0x1000, end: 0x2000 },
        ModuleEntry { name: "SERVER.DLL".to_string(), base: 0x5000, end: 0x9000 },
    ]);
    assert_eq!(lib.get_module_base_address("server").unwrap(), 0x5000);
    assert_eq!(lib.get_module_base_address("tier0").unwrap_err(), S2Error::ModuleNotLoaded);
    assert_eq!(lib.module_from_pointer(0x1800).unwrap(), 0x1000);
    assert_eq!(lib.module_from_pointer(0x3000).unwrap_err(), S2Error::ModuleNotFound);
    lib.set_module_base_from_pointer("tier0", 0x1800);
    assert_eq!(lib.get_module_base_address("tier0").unwrap(), 0x1000);
    lib.clear_module_base_address("tier0");
    assert_eq!(lib.get_module_base_address("tier0").unwrap_err(), S2Error::ModuleNotLoaded);
}

#[test]
fn binary_paths_follow_the_os() {
    let mut lib = S2BinLib::new("/cs2/game", "csgo", "linux");
    assert_eq!(lib.get_os_lib_name("server"), "libserver.so");
    assert_eq!(lib.get_binary_path("server"), "/cs2/game/csgo/bin/linuxsteamrt64/libserver.so");
    assert_eq!(lib.get_binary_path("engine2"), "/cs2/game/bin/linuxsteamrt64/libengine2.so");
    assert_eq!(lib.set_custom_binary_path("server", "/tmp/libserver.so", "Linux"), Ok(()));
    assert_eq!(lib.get_binary_path("server"), "/tmp/libserver.so");
    assert_eq!(lib.set_custom_binary_path("server", "x", "macos"), Err(S2Error::UnsupportedOs));
    let win = S2BinLib::new("C:/cs2/game", "csgo", "windows");
    assert_eq!(win.get_os_lib_name("server"), "server.dll");
    assert_eq!(win.get_binary_path("server"), "C:/cs2/game/csgo/bin/win64/server.dll");
    assert_eq!(win.get_os(), "windows");
    assert_eq!(path_join_exec("a/".to_string(), "b"), "a/b");
    assert_eq!(path_join_exec("a".to_string(), "/b"), "/b");
}

#[test]
fn dumped_strings_are_recorded_at_their_addresses() {
    let mut lib = loaded("linux");
    assert!(lib.get_strings("server").is_none());
    lib.dump_strings("server").unwrap();
    let table = lib.get_strings("server").unwrap();
    assert_eq!(table.get("hello world"), Some(&0x1200));
    assert_eq!(table.get("zeta_string"), Some(&0x1210));
    assert_eq!(table.get("alpha_string"), Some(&0x121C));
    assert_eq!(table.get("abc"), None);
    let entries = sorted_string_entries(table);
    let names: Vec<&str> = entries.iter().map(|(n, _)| n.as_str()).collect();
    let alpha = names.iter().position(|n| *n == "alpha_string").unwrap();
    let hello = names.iter().position(|n| *n == "hello world").unwrap();
    let zeta = names.iter().position(|n| *n == "zeta_string").unwrap();
    assert!(alpha < hello && hello < zeta);
}

#[test]
fn cross_references_are_dumped_and_followed() {
    let mut lib = loaded("linux");
    assert!(lib.find_xrefs_cached("server", 0x1200).is_none());
    lib.dump_xrefs("server").unwrap();
    assert_eq!(lib.find_xrefs_cached("server", 0x1200).unwrap(), &vec![0x1110]);
    assert_eq!(lib.find_xrefs_cached("server", 0x1100).unwrap(), &vec![0x1117]);
    assert_eq!(lib.find_xref_func_start_rva("server", 0x1118).unwrap(), 0x1100);
    assert_eq!(lib.follow_xref_rva_to_rva("server", 0x1110).unwrap(), 0x1200);
    assert_eq!(lib.follow_xref_rva_to_rva("server", 0x1117).unwrap(), 0x1100);
    assert_eq!(lib.follow_xref_rva_to_rva("server", 0x111C).unwrap_err(), S2Error::NoXrefInInstruction);
}

#[test]
fn nullsubs_start_with_a_return() {
    let lib = loaded("linux");
    assert_eq!(lib.is_nullsub_rva("server", 0x1100).unwrap(), true);
    assert_eq!(lib.is_nullsub_rva("server", 0x1110).unwrap(), false);
}

#[test]
fn signature_of_a_function_is_unique() {
    let lib = loaded("linux");
    assert_eq!(lib.make_sig_rva("server", 0x1110).unwrap(), "48 8D 05");
    assert_eq!(lib.make_sig_rva("server", 0x9999).unwrap_err(), S2Error::AddressNotMapped);
}

#[test]
fn absent_symbols_and_vtables_are_errors() {
    let lib = loaded("linux");
    assert_eq!(lib.find_export_rva("server", "CreateInterface").unwrap_err(), S2Error::ExportNotFound);
    assert!(lib.find_vtable_rva("server", "CBaseEntity").is_err());
    assert_eq!(lib.get_vtables("server").unwrap_err(), S2Error::VtablesNotDumped);
}

#[test]
fn trampoline_jumps_through_rax() {
    let code = trampoline_code(0x1122_3344_5566_7788).unwrap();
    assert_eq!(code.len(), 52);
    for k in 0..20 {
        assert_eq!(&code[2 * k..2 * k + 2], &[0x66, 0x90]);
    }
    assert_eq!(&code[40..50], &[0x48, 0xB8, 0x88, 0x77, 0x66, 0x55, 0x44, 0x33, 0x22, 0x11]);
    assert_eq!(&code[50..52], &[0xFF, 0xE0]);
}

#[test]
fn maps_lines_parse_into_modules() {
    let line: Vec<char> = "7f0000000000-7f0000100000 r-xp 00000000 08:01 1234   /usr/lib/libserver.so".chars().collect();
    let m = parse_maps_line(&line).unwrap();
    assert_eq!(m.name, "/usr/lib/libserver.so");
    assert_eq!(m.base, 0x7f00_0000_0000);
    assert_eq!(m.end, 0x7f00_0010_0000);
    let anon: Vec<char> = "1000-2000 rw-p 00000000 00:00 0".chars().collect();
    let m = parse_maps_line(&anon).unwrap();
    assert_eq!(m.name, "");
    assert_eq!((m.base, m.end), (0x1000, 0x2000));
    let bad: Vec<char> = "zz rw-p".chars().collect();
    assert!(parse_maps_line(&bad).is_none());
}

#[test]
fn instruction_references_are_decoded() {
    assert_eq!(xref_target_of_bytes(&[0xE8, 0x00, 0x00, 0x00, 0x00], 0x1000).unwrap(), 0x1005);
    assert_eq!(xref_target_of_bytes(&[0x48, 0x8B, 0x05, 0x10, 0x00, 0x00, 0x00], 0x2000).unwrap(), 0x2017);
    assert_eq!(xref_target_of_bytes(&[0x90], 0).unwrap_err(), S2Error::NoXrefInInstruction);
    assert!(code_has_path_index_compare(&[0x90, 0x83, 0x7F, 0x38, 0xFF, 0xC3]));
    assert!(!code_has_path_index_compare(&[0x83, 0x7F, 0x30, 0xFF, 0xC3]));
}

#[test]
fn call_targets_are_kept_sorted() {
    let mut lib = S2BinLib::new(".", "csgo", "linux");
    lib.insert_calls_targets("server", vec![0x300, 0x100, 0x200]);
    assert_eq!(lib.find_xref_func_start_rva("server", 0x250).unwrap(), 0x200);
    assert_eq!(lib.find_xref_func_start_rva("server", 0x50).unwrap(), 0);
    assert_eq!(lib.find_xref_func_start_rva("client", 0x250).unwrap(), 0);
    assert_eq!(lib.find_xref_func_start_rva("server", 0x1000).unwrap(), 0x300);
    assert_eq!(lib.find_xref_func_start_rva("server", 0x300).unwrap(), 0x200);
    lib.insert_calls_targets("client", vec![0x300, 0x100]);
    assert_eq!(lib.find_xref_func_start_rva("client", 0x300).unwrap(), 0x100);
    lib.insert_calls_targets("host", vec![0x200, 0x100, 0x200]);
    assert_eq!(lib.find_xref_func_start_rva("host", 0x200).unwrap(), 0x200);
    assert_eq!(lib.find_xref_func_start_rva("host", 0x180).unwrap(), 0x100);
}

fn vt(name: &str, methods: Vec<u64>, bases: Vec<&str>) -> VTableInfo {
    VTableInfo {
        class_name: name.to_string(),
        vtable_address: 0,
        methods,
        bases: bases
            .into_iter()
            .map(|b| BaseClassInfo { class_name: b.to_string(), details: BaseClassModel::Itanium { offset: 0, flags: 0 } })
            .collect(),
        model: VTableModel::Itanium { offset_to_top: 0 },
    }
}

#[test]
fn short_map_groups_slot_counts_by_class() {
    let vts = vec![vt("B", vec![1, 2, 3], vec![]), vt("A", vec![4], vec![]), vt("B", vec![5, 6], vec!["A"])];
    let map = vtable_short_map(&vts);
    assert_eq!(map, vec![("A".to_string(), vec![1]), ("B".to_string(), vec![3, 2])]);
    assert!(vtable_has_base(&vts[2], "A"));
    assert!(!vtable_has_base(&vts[0], "A"));
}

#[test]
fn image_view_reads_within_sections() {
    let data = sample_elf();
    let view = file_view(&data, 0).unwrap();
    assert!(view.contains(0x1200));
    assert!(!view.contains(0x9000));
    assert_eq!(view.read_u32(0x1200), Some(u32::from_le_bytes(*b"hell")));
    assert_eq!(view.read_c_string(0x1210), Some("zeta_string".to_string()));
    assert!(view.is_executable(0x1110));
    assert!(!view.is_executable(0x1200));
    assert!(file_view(&[0u8; 8], 0).is_err());
}

#[test]
fn module_sections_come_in_address_order() {
    let data = sample_elf();
    let secs = s2binlib::memory::module_sections_from_slice(&data, 0x1000).unwrap();
    let names: Vec<Option<String>> = secs.iter().map(|s| s.name.clone()).collect();
    assert_eq!(names, vec![Some(".shstrtab".to_string()), Some(".text".to_string()), Some(".rodata".to_string())]);
    let layout: Vec<(usize, usize, bool)> = secs.iter().map(|s| (s.offset, s.size, s.executable)).collect();
    assert_eq!(layout, vec![(0, 25, false), (0x100, 0x40, true), (0x200, 0x40, false)]);
    assert!(s2binlib::memory::module_sections_from_slice(&[], 0).unwrap().is_empty());
}

fn data_view(address: u64, data: Vec<u8>) -> s2binlib::view::ImageView {
    s2binlib::view::ImageView {
        image_base: address,
        sections: vec![s2binlib::view::ViewSection { name: Some(".rdata".to_string()), address, data, executable: false }],
    }
}

#[test]
fn msvc_type_descriptors_name_their_class() {
    let mut data = vec![0u8; 0x40];
    let name = b".?AVCBaseEntity@@\0";
    data[16..16 + name.len()].copy_from_slice(name);
    let nested = b".?AVFoo@Bar@@\0";
    data[0x30..0x30 + nested.len()].copy_from_slice(nested);
    let view = data_view(0x20000, data);
    let parser = s2binlib::msvc::MsvcParser::new(&view);
    assert_eq!(parser.get_type_name(0x20000), Some("CBaseEntity".to_string()));
    assert_eq!(parser.get_type_name(0x20020), Some("Bar::Foo".to_string()));
    assert_eq!(parser.get_type_name(0x30000), None);
}

#[test]
fn itanium_typeinfo_names_are_demangled() {
    let mut data = vec![0u8; 0x40];
    data[8..16].copy_from_slice(&0x10020u64.to_le_bytes());
    let name = b"11CBaseEntity\0";
    data[0x20..0x20 + name.len()].copy_from_slice(name);
    let view = data_view(0x10000, data);
    let mut parser = s2binlib::itanium::ItaniumParser::new(&view);
    let t = parser.resolve_typeinfo(0x10000, 8).unwrap();
    assert_eq!(t.name, "CBaseEntity");
    assert!(t.bases.is_empty());
    assert!(parser.resolve_typeinfo(0x10008, 8).is_none());
}

#[test]
fn section_searches_and_their_errors() {
    let lib = loaded("linux");
    assert_eq!(lib.find_all_pattern_string_in_section("server", ".rodata", "_string").unwrap(), vec![0x214, 0x221]);
    assert_eq!(lib.find_all_pattern_string_in_section("server", ".data", "_string").unwrap_err(), S2Error::SectionNotFound);
    assert_eq!(lib.find_symbol_rva("server", "CreateInterface").unwrap_err(), S2Error::SymbolNotFound);
    assert_eq!(lib.find_vfunc_start("server", 0x1200).unwrap_err(), S2Error::VfuncNotFound);
}

#[test]
fn string_references_lead_to_functions() {
    let mut lib = loaded("linux");
    lib.dump_xrefs("server").unwrap();
    assert_eq!(lib.find_xref_func_with_string_rva("server", "hello world").unwrap(), 0x1100);
    assert_eq!(lib.find_xref_func_with_string_rva("server", "zeta_string").unwrap_err(), S2Error::StringReferenceNotFound);
}

#[test]
fn other_object_formats_are_unsupported() {
    let mut macho = vec![0u8; 32];
    macho[0..4].copy_from_slice(&0xFEED_FACFu32.to_le_bytes());
    macho[4..8].copy_from_slice(&0x0100_0007u32.to_le_bytes());
    macho[8..12].copy_from_slice(&3u32.to_le_bytes());
    macho[12..16].copy_from_slice(&2u32.to_le_bytes());
    let mut lib = S2BinLib::new("/game", "csgo", "linux");
    lib.load_binary("mach", Some(macho));
    assert_eq!(lib.get_image_base("mach").unwrap_err(), S2Error::UnsupportedFormat);
}

/// A 64-bit ELF with Itanium RTTI for two classes, `Derived : Base`:
/// `.text` at 0x1100 holds four one-byte functions, 16 bytes apart;
/// `.rodata` at 0x1200 the type names "4Base" (0x1208) and "7Derived"
/// (0x1210); `.data.rel.ro` at 0x1300 the `type_info` of `Base` (0x1308)
/// and of `Derived` (0x1318, naming `Base` as its base), then the vtable of
/// `Base` (slots at 0x1350: 0x1100, 0x1110) and of `Derived` (slots at
/// 0x1378: 0x1100, 0x1120, 0x1130).
fn sample_rtti_elf() -> Vec<u8> {
    let mut d = vec![0u8; 0x540];
    d[0..4].copy_from_slice(&[0x7F, b'E', b'L', b'F']);
    d[4] = 2;
    d[5] = 1;
    d[6] = 1;
    put16(&mut d, 16, 3);
    put16(&mut d, 18, 0x3E);
    put32(&mut d, 20, 1);
    put64(&mut d, 40, 0x400);
    put16(&mut d, 52, 64);
    put16(&mut d, 54, 56);
    put16(&mut d, 58, 64);
    put16(&mut d, 60, 5);
    put16(&mut d, 62, 4);

    for f in 0..4 {
        d[0x100 + 16 * f] = 0xC3;
        for b in d[0x101 + 16 * f..0x110 + 16 * f].iter_mut() {
            *b = 0xCC;
        }
    }
    d[0x208..0x20E].copy_from_slice(b"4Base\0");
    d[0x210..0x219].copy_from_slice(b"7Derived\0");
    let shstrtab = b"\0.text\0.rodata\0.data.rel.ro\0.shstrtab\0";
    d[0x280..0x280 + shstrtab.len()].copy_from_slice(shstrtab);

    put64(&mut d, 0x310, 0x1208);
    put64(&mut d, 0x320, 0x1210);
    put64(&mut d, 0x328, 0x1308);
    put64(&mut d, 0x330, 0x1200);
    put64(&mut d, 0x348, 0x1308);
    put64(&mut d, 0x350, 0x1100);
    put64(&mut d, 0x358, 0x1110);
    put64(&mut d, 0x370, 0x1318);
    put64(&mut d, 0x378, 0x1100);
    put64(&mut d, 0x380, 0x1120);
    put64(&mut d, 0x388, 0x1130);

    section_header(&mut d, 0x440, 1, 1, 6, 0x1100, 0x100, 0x40);
    section_header(&mut d, 0x480, 7, 1, 2, 0x1200, 0x200, 0x40);
    section_header(&mut d, 0x4C0, 15, 1, 3, 0x1300, 0x300, 0x100);
    section_header(&mut d, 0x500, 28, 3, 0, 0, 0x280, shstrtab.len() as u64);
    d
}

fn rtti_lib() -> S2BinLib {
    let mut lib = S2BinLib::new("/game", "csgo", "linux");
    lib.load_binary("server", Some(sample_rtti_elf()));
    lib
}

#[test]
fn itanium_vtables_are_found_by_name() {
    let lib = rtti_lib();
    assert_eq!(lib.find_vtable_rva("server", "Base").unwrap(), 0x1350);
    assert_eq!(lib.find_vtable_rva("server", "Derived").unwrap(), 0x1378);
    assert_eq!(lib.find_vtable_rva("server", "Missing").unwrap_err(), S2Error::VtableNotFound);
    assert_eq!(lib.get_vtable_vfunc_count("server", "Base").unwrap(), 2);
    assert_eq!(lib.get_vtable_vfunc_count("server", "Derived").unwrap(), 3);
    assert_eq!(lib.find_vfunc_by_vtbname_rva("server", "Derived", 1).unwrap(), 0x1120);
}

#[test]
fn dumped_vtables_carry_slots_and_bases() {
    let mut lib = rtti_lib();
    lib.dump_vtables("server").unwrap();
    let vts = lib.get_vtables("server").unwrap();
    let names: Vec<&str> = vts.iter().map(|v| v.class_name.as_str()).collect();
    assert_eq!(names, vec!["Base", "Derived"]);
    assert_eq!(vts[0].vtable_address, 0x1350);
    assert_eq!(vts[0].methods, vec![0x1100, 0x1110]);
    assert!(vts[0].bases.is_empty());
    assert_eq!(vts[1].vtable_address, 0x1378);
    assert_eq!(vts[1].methods, vec![0x1100, 0x1120, 0x1130]);
    assert_eq!(vts[1].bases.len(), 1);
    assert_eq!(vts[1].bases[0].class_name, "Base");
    assert_eq!(vtable_short_map(vts), vec![("Base".to_string(), vec![2]), ("Derived".to_string(), vec![3])]);

    let children = lib.get_all_vtable_children("server", "Base").unwrap();
    assert_eq!(children.len(), 1);
    assert_eq!(children[0].class_name, "Derived");

    let (vt, slot, addr) = lib.find_vfunc_start_rva("server", 0x1125).unwrap();
    assert_eq!((vt.class_name.as_str(), slot, addr), ("Derived", 1, 0x1120));
}

#[test]
fn reports_compare_derived_slots_with_their_base() {
    let mut lib = rtti_lib();
    lib.dump_vtables("server").unwrap();
    let report = lib.vtable_diff("server", "Base").unwrap();
    assert_eq!(report.base_count, 2);
    assert_eq!(report.children, vec!["Derived".to_string()]);
    assert_eq!(report.diffs, vec![Vec::<String>::new(), vec!["Derived".to_string()]]);
    let mut stub = vec![0xCCu8; 16];
    stub[0] = 0xC3;
    assert_eq!(report.bytes, vec![stub.clone(), stub]);

    let entities = lib.entity_diffs("server", "Base").unwrap();
    assert_eq!(entities.len(), 1);
    assert_eq!(entities[0].class_name, "Derived");
    assert_eq!(entities[0].method_count, 3);
    assert_eq!(entities[0].base_name, "Base");
    assert_eq!(entities[0].marks, b"=!?".to_vec());

    assert!(lib.networkvar_entries().unwrap().is_empty());
    assert_eq!(lib.gamesystem_overrides("server", 71).unwrap_err(), S2Error::VtableNotFound);
    assert_eq!(lib.vtable_diff("server", "Missing").unwrap_err(), S2Error::VtableNotFound);
}

#[test]
fn unsafe_decorated_names_stay_undemangled() {
    let mut data = vec![0u8; 0x40];
    let name = b".?AUA@@@_00A@?$0A\0";
    data[16..16 + name.len()].copy_from_slice(name);
    let view = data_view(0x20000, data);
    let parser = s2binlib::msvc::MsvcParser::new(&view);
    assert_eq!(parser.get_type_name(0x20000), Some("??_R0?AUA@@@_00A@?$0A@8".to_string()));
}

fn module(name: &str, base: u64, end: u64) -> ModuleEntry {
    ModuleEntry { name: name.to_string(), base, end }
}

#[test]
fn module_spans_cover_every_mapping_of_the_file() {
    let modules = vec![
        module("/lib/libc.so", 0x1000, 0x2000),
        module("/game/libserver.so", 0x5000, 0x6000),
        module("/game/libserver.so", 0x4000, 0x5000),
        module("/lib/libc.so", 0x3000, 0x3800),
        module("/game/libserver.so", 0x6000, 0x9000),
    ];
    assert_eq!(s2binlib::memory::module_span(&modules, 0x5800), Some((0x4000, 0x9000)));
    assert_eq!(s2binlib::memory::module_span(&modules, 0x1000), Some((0x1000, 0x3800)));
    assert_eq!(s2binlib::memory::module_span(&modules, 0x2000), None);
    assert_eq!(s2binlib::memory::module_span(&[], 0x2000), None);
}

#[test]
fn module_views_place_sections_in_the_process() {
    let data = sample_elf();
    let view = s2binlib::view::module_image_view(&data, 0x1000).unwrap();
    assert_eq!(view.image_base, 0x1000);
    let placed: Vec<(Option<String>, u64, usize, bool)> =
        view.sections.iter().map(|s| (s.name.clone(), s.address, s.data.len(), s.executable)).collect();
    assert_eq!(
        placed,
        vec![
            (Some(".shstrtab".to_string()), 0x1000, 25, false),
            (Some(".text".to_string()), 0x1100, 0x40, true),
            (Some(".rodata".to_string()), 0x1200, 0x40, false),
        ]
    );
    assert_eq!(view.sections[1].data, data[0x100..0x140].to_vec());
    assert!(s2binlib::view::module_image_view(&[], 0x10000).unwrap().sections.is_empty());
    assert_eq!(s2binlib::view::module_image_view(&[1u8; 8], 0).unwrap_err(), S2Error::ObjectParse);
}
