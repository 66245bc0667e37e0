use font_tuner::stale::{file_export_rva, holders_of_stale_core, is_core, try_again, Holder, Lookup, HOOK_PROC_RVA, SNAPSHOT_TRIES};

/// Bytes that can be written at offsets.
struct Image(Vec<u8>);

impl Image {
    fn put(&mut self, at: usize, bytes: &[u8]) {
        if self.0.len() < at + bytes.len() {
            self.0.resize(at + bytes.len(), 0);
        }
        self.0[at..at + bytes.len()].copy_from_slice(bytes);
    }

    fn dword(&mut self, at: usize, v: u32) {
        self.put(at, &v.to_le_bytes());
    }

    fn word(&mut self, at: usize, v: u16) {
        self.put(at, &v.to_le_bytes());
    }
}

/// The export directory and its tables, where the byte at RVA r goes to
/// r - shift.
fn exports(im: &mut Image, shift: usize) {
    let dir = 0x3000 - shift;
    im.dword(dir + 24, 3);
    im.dword(dir + 28, 0x3100);
    im.dword(dir + 32, 0x3200);
    im.dword(dir + 36, 0x3300);
    for (i, (name, at)) in [("Alpha", 0x3400), ("GetMsgProc", 0x3420), ("GetMsgProcW", 0x3440)].iter().enumerate() {
        im.dword(0x3200 - shift + 4 * i, *at as u32);
        im.put(*at - shift, name.as_bytes());
        im.put(*at - shift + name.len(), &[0]);
    }
    // GetMsgProc has the third function, by its ordinal.
    im.word(0x3300 - shift, 1);
    im.word(0x3300 - shift + 2, 2);
    im.word(0x3300 - shift + 4, 0);
    for (i, rva) in [0x2000u32, 0x1800, 0x1000].iter().enumerate() {
        im.dword(0x3100 - shift + 4 * i, *rva);
    }
}

/// A core as a file: the section at RVA 0x3000 lies at 0x400.
fn built_core() -> Vec<u8> {
    let mut im = Image(vec![0; 0x1000]);
    im.dword(0x3c, 0x80);
    im.dword(0x80, 0x4550);
    im.word(0x80 + 6, 2);
    im.word(0x80 + 20, 0xf0);
    im.dword(0x80 + 136, 0x3000);
    let sections = 0x80 + 24 + 0xf0;
    for (i, (rva, raw)) in [(0x1000u32, 0x300u32), (0x3000, 0x400)].iter().enumerate() {
        im.dword(sections + 40 * i + 8, 0x1000);
        im.dword(sections + 40 * i + 12, *rva);
        im.dword(sections + 40 * i + 20, *raw);
    }
    exports(&mut im, 0x3000 - 0x400);
    im.0
}

#[test]
fn file_export_rva_of_built_core() {
    let dll = built_core();
    assert_eq!(file_export_rva(&dll, "GetMsgProc"), Some(0x1000));
    assert_eq!(file_export_rva(&dll, "NoSuchExport"), None);
}

#[test]
fn a_name_is_matched_to_its_end() {
    let dll = built_core();
    assert_eq!(file_export_rva(&dll, "GetMsgProcW"), Some(0x2000));
    assert_eq!(file_export_rva(&dll, "Alpha"), Some(0x1800));
    assert_eq!(file_export_rva(&dll, "GetMsg"), None);
    assert_eq!(file_export_rva(&dll, "getmsgproc"), None);
}

#[test]
fn what_is_no_image_has_no_exports() {
    assert_eq!(file_export_rva(&[], "GetMsgProc"), None);
    let mut dll = built_core();
    dll[0x80 + 136..0x80 + 140].fill(0);
    assert_eq!(file_export_rva(&dll, "GetMsgProc"), None, "no export directory");
    let dll = built_core();
    assert_eq!(file_export_rva(&dll[..0x420], "GetMsgProc"), None, "cut off");
}

/// Runs a lookup on an image mapped at `base`.
fn walk(image: &[u8], base: u64, name: &str) -> (Option<u32>, usize) {
    let mut l = Lookup::new(base, name);
    let mut reads = 0;
    while let Some((at, n)) = l.next() {
        let from = (at - base) as usize;
        l.step(image.get(from..from + n));
        reads += 1;
    }
    (l.result(), reads)
}

#[test]
fn a_mapped_image_is_walked_by_reads() {
    let mut im = Image(vec![0; 0x4000]);
    im.dword(0x3c, 0x80);
    im.dword(0x80, 0x4550);
    im.dword(0x80 + 136, 0x3000);
    exports(&mut im, 0);
    let base = 0x7ff8_0000_0000;
    assert_eq!(walk(&im.0, base, "GetMsgProc"), (Some(0x1000), 7 + 2 * 2 + 2));
    assert_eq!(walk(&im.0, base, "NoSuchExport").0, None);
    assert_eq!(walk(&im.0[..0x3200], base, "GetMsgProc").0, None, "unreadable");
    im.dword(0x80, 0x4551);
    assert_eq!(walk(&im.0, base, "GetMsgProc"), (None, 2), "no signature");
}

fn holder(pid: u32, exe: &str, rva: Option<usize>, exited: bool) -> Holder {
    Holder { pid, exe: exe.to_string(), rva, exited }
}

/// A scan over the programs that hold the core.
#[test]
fn scan_runs() {
    let holders = [
        holder(1, "notepad.exe", Some(0x1000), false),
        holder(2, "word.exe", Some(0x2000), false),
        holder(3, "excel.exe", Some(0x3000), false),
        holder(4, "gone.exe", Some(0x2000), true),
        holder(5, "word.exe", Some(0x2000), false),
        holder(7, "tuner.exe", Some(0x2000), false),
    ];
    assert_eq!(holders_of_stale_core(&holders, 7, HOOK_PROC_RVA), ["excel.exe", "word.exe"]);
    assert!(holders_of_stale_core(&[], 7, HOOK_PROC_RVA).is_empty());
}

#[test]
fn the_core_is_known_by_its_path() {
    let wide = |s: &str| s.encode_utf16().chain([0, 0x41]).collect::<Vec<u16>>();
    let core = r"C:\Program Files\Font-tuner\RenderCore64.dll";
    assert!(is_core(&wide(core), core));
    assert!(is_core(&wide(r"c:\program files\font-tuner\RENDERCORE64.DLL"), core));
    assert!(!is_core(&wide(r"C:\build\RenderCore64.dll"), core), "a copy elsewhere is another image");
}

#[test]
fn a_snapshot_is_tried_again_while_modules_load() {
    assert!(try_again(0, true));
    assert!(!try_again(0, false));
    assert!(try_again(SNAPSHOT_TRIES - 1, true));
    assert!(!try_again(SNAPSHOT_TRIES, true));
}
