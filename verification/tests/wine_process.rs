use nemclass::error::{MfError, SdkError};
use nemclass::process::{
    can_read, find_module, find_process_by_name, is_pe_name, merge_module_ranges, module_line,
    module_named, query, scan_buffer, MemoryRegion, ModuleInfo, OwnedProcess, ProcessInfo, Protection,
};
use nemclass::pattern::DynPattern;
use nemclass::wine::{
    file_name, image_size_read, nt_offset, pointer_size_of_magic, split_lines, windows_exe_name,
    ImageDosHeader, ImageOptionalHeader64, ImageSizeRead,
};

fn chars(s: &str) -> Vec<char> {
    s.chars().collect()
}

#[test]
fn exe_name_prefers_program_over_builtin() {
    let maps = "\
7f00-7f10 r-xp 0 08:02 1 /usr/lib/wine/x86_64-windows/start.exe\n\
7f10-7f20 r-xp 0 08:02 2 /home/u/.wine/drive_c/Game/Terraria.exe\r\n\
7f20-7f30 r-xp 0 08:02 3 /usr/lib/wine/x86_64-windows/kernel32.dll\n";
    assert_eq!(windows_exe_name(maps), Some("Terraria.exe".to_string()));
    assert_eq!(windows_exe_name("7f00-7f10 r-xp 0 08:02 1 /usr/bin/cat\n"), None);
    assert_eq!(windows_exe_name("7f00-7f10 r-xp 0 08:02 1 /usr/lib/wine/ntdll.so\n"), None);
}

#[test]
fn lines_and_file_names() {
    let ls = split_lines(&chars("a\r\nb\n\nc\r"));
    let ls: Vec<String> = ls.into_iter().map(|l| l.into_iter().collect()).collect();
    assert_eq!(ls, vec!["a", "b", "", "c\r"]);
    let name = |p: &str| file_name(&chars(p)).map(|v| v.into_iter().collect::<String>());
    assert_eq!(name("/usr/bin/cat"), Some("cat".to_string()));
    assert_eq!(name("/a/b/"), Some("b".to_string()));
    assert_eq!(name("/a/b/.."), None);
    assert_eq!(name("/"), None);
}

#[test]
fn pe_header_walk() {
    let mut dos = vec![0u8; 64];
    dos[0] = b'M';
    dos[1] = b'Z';
    dos[60] = 0x80;
    let h = ImageDosHeader::from_bytes(&dos).unwrap();
    assert_eq!(h.e_lfanew, 0x80);
    assert_eq!(nt_offset(&h, 0x40_0000), Some(0x40_0080));
    dos[0] = b'X';
    assert_eq!(nt_offset(&ImageDosHeader::from_bytes(&dos).unwrap(), 0x40_0000), None);
    assert!(ImageDosHeader::from_bytes(&dos[..10]).is_none());
    assert_eq!(pointer_size_of_magic(0x20b), Some(8));
    assert_eq!(pointer_size_of_magic(0x10b), Some(4));
    assert_eq!(pointer_size_of_magic(0x107), None);
    assert_eq!(image_size_read(0x10b, 0x1000), Some(ImageSizeRead::Field32(0x1038)));
    let mut opt = vec![0u8; 60];
    opt[0] = 0x0b;
    opt[1] = 0x02;
    opt[56] = 0x00;
    opt[57] = 0x30;
    let o = ImageOptionalHeader64::from_bytes(&opt).unwrap();
    assert_eq!(o.magic, 0x20b);
    assert_eq!(o.size_of_image, 0x3000);
}

fn module(base: usize, size: usize, name: &str) -> ModuleInfo {
    ModuleInfo { base, size, name: name.to_string() }
}

#[test]
fn lookups_ignore_ascii_case() {
    let mods = vec![module(0x1000, 0x10, "game.exe"), module(0x2000, 0x20, "KERNEL32.DLL")];
    assert_eq!(find_module(&mods, "Kernel32.dll").unwrap().base, 0x2000);
    assert_eq!(find_module(&mods, "nope").unwrap_err(), MfError::ModuleNotFound);
    assert!(matches!(module_named(&mods, "x.dll"), Err(SdkError::ModuleNotFound(n)) if n == "x.dll"));
    let procs = vec![ProcessInfo { id: 9, name: "Game.EXE".into(), parent_id: 1 }];
    assert_eq!(find_process_by_name(&procs, "game.exe").unwrap().id(), 9);
    assert_eq!(find_process_by_name(&procs, "other").unwrap_err(), MfError::ProcessNotFound);
    assert_eq!(OwnedProcess(4).id(), 4);
}

#[test]
fn map_queries() {
    let r = Protection { read: true, write: false, execute: true };
    let w = Protection { read: false, write: true, execute: false };
    let maps = vec![
        MemoryRegion { from: 0x1000, to: 0x2000, prot: r },
        MemoryRegion { from: 0x2000, to: 0x3000, prot: w },
    ];
    assert_eq!(query(&maps, 0x1800), Some(r));
    assert_eq!(query(&maps, 0x2000), Some(w));
    assert_eq!(query(&maps, 0x3000), None);
    assert!(can_read(&maps, 0x1FFF));
    assert!(!can_read(&maps, 0x2500));
}

#[test]
fn buffer_scan_and_module_lines() {
    let pat = DynPattern::from_ida_style("AA ? CC").unwrap();
    let buf = [0xAA, 0x00, 0xCC, 0xAA, 0x11, 0xCC, 0xAA];
    assert_eq!(scan_buffer(&pat, &buf, 0x500), vec![0x500, 0x503]);
    let (p, f, t) = module_line("10-20 r-xp 0 08:02 7 /opt/g/game.exe").unwrap();
    assert_eq!((p.iter().collect::<String>(), f, t), ("/opt/g/game.exe".to_string(), 0x10, 0x20));
    assert!(module_line("10-20 r-xp 0 08:02 7").is_none());
    let merged = merge_module_ranges(&[
        (chars("/a.exe"), 0x20, 0x30),
        (chars("/b.so"), 0x100, 0x200),
        (chars("/a.exe"), 0x10, 0x18),
    ]);
    assert_eq!(merged.len(), 2);
    assert_eq!((merged[0].1, merged[0].2), (0x10, 0x30));
    assert!(is_pe_name(&chars("GAME.EXE")));
    assert!(!is_pe_name(&chars("libc.so")));
}
