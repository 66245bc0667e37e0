//! Finding processes that still hold a core whose hook procedure is not where
//! the hook is about to point.
//!
//! A process keeps whatever build of the core it first loaded, and Windows
//! calls the hook at an offset (RVA) from the module's base there. If the
//! builds disagree on the offset, the process would run random bytes. So the
//! export is looked up in the image that the process has mapped, and in the
//! file before it is loaded.

use vstd::prelude::*;
use vstd::slice::slice_subrange;

use crate::text;
use crate::utf16;

verus! {

// ---- reading an image ----

/// `"PE\0\0"` as a little-endian number.
pub const PE_SIGNATURE: u32 = 0x4550;

/// No more names of an export directory than this are looked at.
pub const MAX_NAMES: u32 = 4096;

pub open spec fn le32(b: Seq<u8>) -> int {
    b[0] + b[1] * 0x100 + b[2] * 0x1_0000 + b[3] * 0x100_0000
}

pub open spec fn le16(b: Seq<u8>) -> int {
    b[0] + b[1] * 0x100
}

fn read_le32(b: &[u8]) -> (r: u32)
    requires
        b@.len() == 4,
    ensures
        r == le32(b@),
{
    b[0] as u32 + b[1] as u32 * 0x100 + b[2] as u32 * 0x1_0000 + b[3] as u32 * 0x100_0000
}

fn read_le16(b: &[u8]) -> (r: u16)
    requires
        b@.len() == 2,
    ensures
        r == le16(b@),
{
    b[0] as u16 + b[1] as u16 * 0x100
}

/// What can be read: `get(at, n)` is the `n` bytes at `at`, if they are there.
pub struct Image {
    pub get: spec_fn(int, int) -> Option<Seq<u8>>,
}

impl Image {
    pub open spec fn bytes(self, at: int, n: int) -> Option<Seq<u8>> {
        (self.get)(at, n)
    }

    pub open spec fn dword(self, at: int) -> Option<int> {
        match self.bytes(at, 4) {
            Some(b) => Some(le32(b)),
            None => None,
        }
    }

    pub open spec fn word(self, at: int) -> Option<int> {
        match self.bytes(at, 2) {
            Some(b) => Some(le16(b)),
            None => None,
        }
    }

    /// As many bytes as were asked for.
    pub open spec fn exact(self) -> bool {
        forall|at: int, n: int|
            n >= 0 ==> match #[trigger] self.bytes(at, n) {
                Some(b) => b.len() == n,
                None => true,
            }
    }
}

// ---- an image mapped in memory ----

/// Where the tables of an export directory are.
#[derive(Clone, Copy, Debug, PartialEq, Eq, Structural)]
pub struct Tables {
    pub count: u32,
    pub functions: u64,
    pub names: u64,
    pub ordinals: u64,
}

/// The offset that function `ordinal` has.
pub open spec fn function_at(im: Image, t: Tables, ordinal: int) -> Option<int> {
    im.dword(t.functions + 4 * ordinal)
}

/// The offset of the function that name `i` is for.
pub open spec fn named_function(im: Image, t: Tables, i: int) -> Option<int> {
    match im.word(t.ordinals + 2 * i) {
        Some(ordinal) => function_at(im, t, ordinal),
        None => None,
    }
}

/// The offset of the first function, from name `i` on, that is called `name`
/// (which ends in a 0); `None` where there is none, or where something on the
/// way cannot be read.
pub open spec fn mapped_from(im: Image, base: int, name: Seq<u8>, t: Tables, i: int) -> Option<int>
    decreases t.count - i,
{
    if i >= t.count {
        None
    } else {
        match im.dword(t.names + 4 * i) {
            None => None,
            Some(rva) => match im.bytes(base + rva, name.len() as int) {
                None => None,
                Some(s) => if s == name {
                    named_function(im, t, i)
                } else {
                    mapped_from(im, base, name, t, i + 1)
                },
            },
        }
    }
}

pub open spec fn capped(n: int) -> int {
    if n < MAX_NAMES {
        n
    } else {
        MAX_NAMES as int
    }
}

/// The tables of the export directory at `dir` of an image mapped at `base`.
pub open spec fn mapped_tables(im: Image, base: int, dir: int) -> Option<Tables> {
    match (im.dword(dir + 24), im.dword(dir + 28), im.dword(dir + 32), im.dword(dir + 36)) {
        (Some(n), Some(f), Some(m), Some(o)) => Some(
            Tables {
                count: capped(n) as u32,
                functions: (base + f) as u64,
                names: (base + m) as u64,
                ordinals: (base + o) as u64,
            },
        ),
        _ => None,
    }
}

/// The offset of the export called `name` (which ends in a 0) in the image
/// mapped at `base`.
pub open spec fn mapped_export(im: Image, base: int, name: Seq<u8>) -> Option<int> {
    match im.dword(base + 0x3c) {
        None => None,
        Some(lfanew) => if im.dword(base + lfanew) != Some(PE_SIGNATURE as int) {
            None
        } else {
            match im.dword(base + lfanew + 136) {
                None => None,
                Some(exp) => if exp == 0 {
                    None
                } else {
                    match mapped_tables(im, base, base + exp) {
                        None => None,
                        Some(t) => mapped_from(im, base, name, t, 0),
                    }
                },
            }
        },
    }
}

/// How far a lookup has come.
#[derive(Clone, Copy, Debug, PartialEq, Eq, Structural)]
pub enum Stage {
    /// The offset of the PE header is being read.
    Header,
    /// The signature at this address.
    Signature(u64),
    /// The export directory's entry in the header at this address.
    Directory(u64),
    /// The number of names of the directory at this address.
    Count(u64),
    /// The function table's offset.
    Functions(u64, u32),
    /// The name table's offset.
    Names(u64, u32, u64),
    /// The ordinal table's offset.
    Ordinals(u64, u32, u64, u64),
    /// The offset of name `1` of the tables.
    NameOffset(Tables, u32),
    /// Name `1`, at address `2`.
    Name(Tables, u32, u64),
    /// The ordinal of name `1`.
    Ordinal(Tables, u32),
    /// The offset of function `1`.
    Function(Tables, u32),
    /// The lookup is over.
    Done(Option<u32>),
}

/// A lookup of an export in an image that another process has mapped. The
/// memory is read from outside: `next` says what to read, `step` takes what
/// came of it.
pub struct Lookup {
    pub base: u64,
    /// The name, with a 0 behind it.
    pub name: Vec<u8>,
    pub stage: Stage,
}

pub open spec fn directory_count(im: Image, base: int, name: Seq<u8>, dir: int) -> Option<int> {
    match mapped_tables(im, base, dir) {
        None => None,
        Some(t) => mapped_from(im, base, name, t, 0),
    }
}

impl Lookup {
    /// What the lookup comes to on `im` from where it is.
    pub open spec fn outcome(self, im: Image) -> Option<int> {
        let base = self.base as int;
        let name = self.name@;
        match self.stage {
            Stage::Header => mapped_export(im, base, name),
            Stage::Signature(pe) => if im.dword(pe as int) != Some(PE_SIGNATURE as int) {
                None
            } else {
                match im.dword(pe + 136) {
                    None => None,
                    Some(exp) => if exp == 0 {
                        None
                    } else {
                        directory_count(im, base, name, base + exp)
                    },
                }
            },
            Stage::Directory(pe) => match im.dword(pe + 136) {
                None => None,
                Some(exp) => if exp == 0 {
                    None
                } else {
                    directory_count(im, base, name, base + exp)
                },
            },
            Stage::Count(dir) => directory_count(im, base, name, dir as int),
            Stage::Functions(dir, n) => match (im.dword(dir + 28), im.dword(dir + 32), im.dword(dir + 36)) {
                (Some(f), Some(m), Some(o)) => mapped_from(
                    im,
                    base,
                    name,
                    Tables {
                        count: n,
                        functions: (base + f) as u64,
                        names: (base + m) as u64,
                        ordinals: (base + o) as u64,
                    },
                    0,
                ),
                _ => None,
            },
            Stage::Names(dir, n, f) => match (im.dword(dir + 32), im.dword(dir + 36)) {
                (Some(m), Some(o)) => mapped_from(
                    im,
                    base,
                    name,
                    Tables { count: n, functions: f, names: (base + m) as u64, ordinals: (base + o) as u64 },
                    0,
                ),
                _ => None,
            },
            Stage::Ordinals(dir, n, f, m) => match im.dword(dir + 36) {
                Some(o) => mapped_from(
                    im,
                    base,
                    name,
                    Tables { count: n, functions: f, names: m, ordinals: (base + o) as u64 },
                    0,
                ),
                None => None,
            },
            Stage::NameOffset(t, i) => mapped_from(im, base, name, t, i as int),
            Stage::Name(t, i, at) => match im.bytes(at as int, name.len() as int) {
                None => None,
                Some(s) => if s == name {
                    named_function(im, t, i as int)
                } else {
                    mapped_from(im, base, name, t, i + 1)
                },
            },
            Stage::Ordinal(t, i) => named_function(im, t, i as int),
            Stage::Function(t, ordinal) => function_at(im, t, ordinal as int),
            Stage::Done(r) => match r {
                Some(v) => Some(v as int),
                None => None,
            },
        }
    }

    /// No address of the lookup is past the largest.
    pub open spec fn ok(self) -> bool {
        let low = 0x4000_0000_0000_0000u64;
        &&& self.base <= low
        &&& self.name@.len() > 0
        &&& match self.stage {
            Stage::Header => true,
            Stage::Signature(pe) => pe <= low + 0xffff_ffff,
            Stage::Directory(pe) => pe <= low + 0xffff_ffff,
            Stage::Count(dir) => dir <= low + 0xffff_ffff,
            Stage::Functions(dir, n) => dir <= low + 0xffff_ffff && n <= MAX_NAMES,
            Stage::Names(dir, n, f) => dir <= low + 0xffff_ffff && n <= MAX_NAMES && f <= low + 0xffff_ffff,
            Stage::Ordinals(dir, n, f, m) => dir <= low + 0xffff_ffff && n <= MAX_NAMES && f <= low + 0xffff_ffff && m
                <= low + 0xffff_ffff,
            Stage::NameOffset(t, i) => tables_ok(t) && i <= t.count,
            Stage::Name(t, i, at) => tables_ok(t) && i < t.count && at <= low + 0xffff_ffff,
            Stage::Ordinal(t, i) => tables_ok(t) && i < t.count,
            Stage::Function(t, ordinal) => tables_ok(t) && ordinal <= 0xffff,
            Stage::Done(_) => true,
        }
    }

    /// How many reads are left at most.
    pub open spec fn left(self) -> int {
        match self.stage {
            Stage::Header => 2 * MAX_NAMES + 10,
            Stage::Signature(_) => 2 * MAX_NAMES + 9,
            Stage::Directory(_) => 2 * MAX_NAMES + 8,
            Stage::Count(_) => 2 * MAX_NAMES + 7,
            Stage::Functions(_, _) => 2 * MAX_NAMES + 6,
            Stage::Names(_, _, _) => 2 * MAX_NAMES + 5,
            Stage::Ordinals(_, _, _, _) => 2 * MAX_NAMES + 4,
            Stage::NameOffset(t, i) => 2 * (t.count - i) + 3,
            Stage::Name(t, i, _) => 2 * (t.count - i) + 2,
            Stage::Ordinal(_, _) => 2,
            Stage::Function(_, _) => 1,
            Stage::Done(_) => 0,
        }
    }

    /// The bytes that the lookup needs next: where, and how many.
    pub open spec fn wants(self) -> Option<(int, int)> {
        match self.stage {
            Stage::Header => Some((self.base + 0x3c, 4)),
            Stage::Signature(pe) => Some((pe as int, 4)),
            Stage::Directory(pe) => Some((pe + 136, 4)),
            Stage::Count(dir) => Some((dir + 24, 4)),
            Stage::Functions(dir, _) => Some((dir + 28, 4)),
            Stage::Names(dir, _, _) => Some((dir + 32, 4)),
            Stage::Ordinals(dir, _, _, _) => Some((dir + 36, 4)),
            Stage::NameOffset(t, i) => Some((t.names + 4 * i, 4)),
            Stage::Name(_, _, at) => Some((at as int, self.name@.len() as int)),
            Stage::Ordinal(t, i) => Some((t.ordinals + 2 * i, 2)),
            Stage::Function(t, ordinal) => Some((t.functions + 4 * ordinal, 4)),
            Stage::Done(_) => None,
        }
    }
}

pub open spec fn tables_ok(t: Tables) -> bool {
    let low = 0x4000_0000_0000_0000u64;
    &&& t.count <= MAX_NAMES
    &&& t.functions <= low + 0xffff_ffff
    &&& t.names <= low + 0xffff_ffff
    &&& t.ordinals <= low + 0xffff_ffff
}

/// A name's bytes with a 0 behind them.
pub open spec fn terminated(name: Seq<char>) -> Seq<u8> {
    vstd::utf8::encode_utf8(name).push(0)
}

fn with_nul(name: &str) -> (r: Vec<u8>)
    ensures
        r@ == terminated(name@),
{
    let mut v: Vec<u8> = vstd::slice::slice_to_vec(name.as_bytes());
    v.push(0);
    v
}

fn same_bytes(a: &[u8], b: &[u8]) -> (r: bool)
    ensures
        r == (a@ == b@),
{
    if a.len() != b.len() {
        return false;
    }
    let mut i: usize = 0;
    while i < a.len()
        invariant
            a@.len() == b@.len(),
            i <= a@.len(),
            forall|j: int| 0 <= j < i ==> a@[j] == b@[j],
        decreases a@.len() - i,
    {
        if a[i] != b[i] {
            return false;
        }
        i = i + 1;
    }
    proof {
        assert(a@ =~= b@);
    }
    true
}

impl Lookup {
    /// Look for the export called `name` in an image mapped at `base`.
    pub fn new(base: u64, name: &str) -> (r: Lookup)
        requires
            base <= 0x4000_0000_0000_0000,
        ensures
            r.ok(),
            forall|im: Image| #[trigger] r.outcome(im) == mapped_export(im, base as int, terminated(name@)),
    {
        Lookup { base, name: with_nul(name), stage: Stage::Header }
    }

    /// What to read next: the address and the number of bytes; `None` once the
    /// lookup is over.
    pub fn next(&self) -> (r: Option<(u64, usize)>)
        requires
            self.ok(),
        ensures
            match r {
                Some((at, n)) => self.wants() == Some((at as int, n as int)),
                None => self.stage is Done,
            },
    {
        match self.stage {
            Stage::Header => Some((self.base + 0x3c, 4)),
            Stage::Signature(pe) => Some((pe, 4)),
            Stage::Directory(pe) => Some((pe + 136, 4)),
            Stage::Count(dir) => Some((dir + 24, 4)),
            Stage::Functions(dir, _) => Some((dir + 28, 4)),
            Stage::Names(dir, _, _) => Some((dir + 32, 4)),
            Stage::Ordinals(dir, _, _, _) => Some((dir + 36, 4)),
            Stage::NameOffset(t, i) => Some((t.names + 4 * i as u64, 4)),
            Stage::Name(_, _, at) => Some((at, self.name.len())),
            Stage::Ordinal(t, i) => Some((t.ordinals + 2 * i as u64, 2)),
            Stage::Function(t, ordinal) => Some((t.functions + 4 * ordinal as u64, 4)),
            Stage::Done(_) => None,
        }
    }

    /// What the lookup came to, once it is over.
    pub fn result(&self) -> (r: Option<u32>)
        ensures
            self.stage is Done ==> self.stage == Stage::Done(r),
            !(self.stage is Done) ==> r is None,
    {
        match self.stage {
            Stage::Done(r) => r,
            _ => None,
        }
    }

    /// Take the bytes that `next` asked for, or that they could not be read.
    pub fn step(&mut self, read: Option<&[u8]>)
        requires
            old(self).ok(),
            !(old(self).stage is Done),
            match (read, old(self).wants()) {
                (Some(b), Some((_, n))) => b@.len() == n,
                _ => true,
            },
        ensures
            final(self).ok(),
            final(self).left() < old(self).left(),
            forall|im: Image|
                im.exact() && (match (old(self).wants(), read) {
                    (Some((at, n)), Some(b)) => im.bytes(at, n) == Some(b@),
                    (Some((at, n)), None) => im.bytes(at, n) is None,
                    _ => false,
                }) ==> #[trigger] final(self).outcome(im) == old(self).outcome(im),
    {
        let b: &[u8] = match read {
            Some(b) => b,
            None => {
                self.stage = Stage::Done(None);
                return ;
            },
        };
        match self.stage {
            Stage::Header => {
                self.stage = Stage::Signature(self.base + read_le32(b) as u64);
            },
            Stage::Signature(pe) => {
                if read_le32(b) == PE_SIGNATURE {
                    self.stage = Stage::Directory(pe);
                } else {
                    self.stage = Stage::Done(None);
                }
            },
            Stage::Directory(_) => {
                let exp: u32 = read_le32(b);
                if exp == 0 {
                    self.stage = Stage::Done(None);
                } else {
                    self.stage = Stage::Count(self.base + exp as u64);
                }
            },
            Stage::Count(dir) => {
                let n: u32 = read_le32(b);
                self.stage = Stage::Functions(
                    dir,
                    if n < MAX_NAMES {
                        n
                    } else {
                        MAX_NAMES
                    },
                );
            },
            Stage::Functions(dir, n) => {
                self.stage = Stage::Names(dir, n, self.base + read_le32(b) as u64);
            },
            Stage::Names(dir, n, f) => {
                self.stage = Stage::Ordinals(dir, n, f, self.base + read_le32(b) as u64);
            },
            Stage::Ordinals(_, n, f, m) => {
                let t: Tables = Tables { count: n, functions: f, names: m, ordinals: self.base + read_le32(b) as u64 };
                if n == 0 {
                    self.stage = Stage::Done(None);
                } else {
                    self.stage = Stage::NameOffset(t, 0);
                }
            },
            Stage::NameOffset(t, i) => {
                if i < t.count {
                    self.stage = Stage::Name(t, i, self.base + read_le32(b) as u64);
                } else {
                    self.stage = Stage::Done(None);
                }
            },
            Stage::Name(t, i, _) => {
                if same_bytes(b, self.name.as_slice()) {
                    self.stage = Stage::Ordinal(t, i);
                } else if i + 1 < t.count {
                    self.stage = Stage::NameOffset(t, i + 1);
                } else {
                    self.stage = Stage::Done(None);
                }
            },
            Stage::Ordinal(t, _) => {
                self.stage = Stage::Function(t, read_le16(b) as u32);
            },
            Stage::Function(_, _) => {
                self.stage = Stage::Done(Some(read_le32(b)));
            },
            Stage::Done(_) => {},
        }
    }
}

// ---- an image in a file ----

/// The `n` bytes of `d` at `at`.
pub open spec fn part(d: Seq<u8>, at: int, n: int) -> Option<Seq<u8>> {
    if 0 <= at && 0 <= n && at + n <= d.len() {
        Some(d.subrange(at, at + n))
    } else {
        None
    }
}

pub open spec fn file_image(d: Seq<u8>) -> Image {
    Image { get: |at: int, n: int| part(d, at, n) }
}

/// The section table of a file: where it starts, and how many entries it has.
pub struct Sections {
    pub start: u64,
    pub count: u16,
}

/// Where in the file the byte at `rva` is: by the first section, from section
/// `i` on, that holds it. A section whose entry cannot be read holds nothing.
pub open spec fn offset_from(im: Image, sections: Sections, rva: int, i: int) -> Option<int>
    decreases sections.count - i,
{
    if i >= sections.count {
        None
    } else {
        let at = sections.start + 40 * i;
        match (im.dword(at + 8), im.dword(at + 12), im.dword(at + 20)) {
            (Some(size), Some(start), Some(raw)) => if start <= rva < start + size {
                Some(raw + rva - start)
            } else {
                offset_from(im, sections, rva, i + 1)
            },
            _ => offset_from(im, sections, rva, i + 1),
        }
    }
}

/// Where in the file the table is whose RVA is kept at `at`.
pub open spec fn table_at(im: Image, sections: Sections, at: int) -> Option<int> {
    match im.dword(at) {
        Some(rva) => offset_from(im, sections, rva, 0),
        None => None,
    }
}

/// As `mapped_from`, in a file.
pub open spec fn filed_from(im: Image, sections: Sections, name: Seq<u8>, t: Tables, i: int) -> Option<int>
    decreases t.count - i,
{
    if i >= t.count {
        None
    } else {
        match table_at(im, sections, t.names + 4 * i) {
            None => None,
            Some(at) => match im.bytes(at, name.len() as int) {
                None => None,
                Some(s) => if s == name {
                    named_function(im, t, i)
                } else {
                    filed_from(im, sections, name, t, i + 1)
                },
            },
        }
    }
}

/// The tables of the export directory at `dir` of a file.
pub open spec fn filed_tables(im: Image, sections: Sections, dir: int) -> Option<Tables> {
    match (
        im.dword(dir + 24),
        table_at(im, sections, dir + 28),
        table_at(im, sections, dir + 32),
        table_at(im, sections, dir + 36),
    ) {
        (Some(n), Some(f), Some(m), Some(o)) => Some(
            Tables { count: capped(n) as u32, functions: f as u64, names: m as u64, ordinals: o as u64 },
        ),
        _ => None,
    }
}

pub open spec fn sections_of(im: Image, pe: int) -> Option<Sections> {
    match (im.word(pe + 6), im.word(pe + 20)) {
        (Some(count), Some(optional)) => Some(
            Sections { start: (pe + 24 + optional) as u64, count: count as u16 },
        ),
        _ => None,
    }
}

/// The offset of the export called `name` (which ends in a 0) in the image
/// whose file `im` is.
pub open spec fn filed_export(im: Image, name: Seq<u8>) -> Option<int> {
    match im.dword(0x3c) {
        None => None,
        Some(pe) => if im.dword(pe) != Some(PE_SIGNATURE as int) {
            None
        } else {
            match (sections_of(im, pe), im.dword(pe + 136)) {
                (Some(sections), Some(exp)) => if exp == 0 {
                    None
                } else {
                    match offset_from(im, sections, exp, 0) {
                        None => None,
                        Some(dir) => match filed_tables(im, sections, dir) {
                            None => None,
                            Some(t) => filed_from(im, sections, name, t, 0),
                        },
                    }
                },
                _ => None,
            }
        },
    }
}

fn take(d: &[u8], at: u64, n: usize) -> (r: Option<&[u8]>)
    ensures
        match r {
            Some(b) => part(d@, at as int, n as int) == Some(b@),
            None => part(d@, at as int, n as int) is None,
        },
{
    let len: usize = d.len();
    if n <= len && at <= (len - n) as u64 {
        let from: usize = at as usize;
        Some(slice_subrange(d, from, from + n))
    } else {
        None
    }
}

fn dword_at(d: &[u8], at: u64) -> (r: Option<u32>)
    ensures
        match r {
            Some(v) => file_image(d@).dword(at as int) == Some(v as int),
            None => file_image(d@).dword(at as int) is None,
        },
{
    match take(d, at, 4) {
        Some(b) => Some(read_le32(b)),
        None => None,
    }
}

fn word_at(d: &[u8], at: u64) -> (r: Option<u16>)
    ensures
        match r {
            Some(v) => file_image(d@).word(at as int) == Some(v as int),
            None => file_image(d@).word(at as int) is None,
        },
{
    match take(d, at, 2) {
        Some(b) => Some(read_le16(b)),
        None => None,
    }
}

fn to_offset(d: &[u8], sections: &Sections, rva: u32) -> (r: Option<u64>)
    requires
        sections.start <= 0x2_0000_0000,
    ensures
        match r {
            Some(v) => offset_from(file_image(d@), *sections, rva as int, 0) == Some(v as int) && v <= 0x1_ffff_ffff,
            None => offset_from(file_image(d@), *sections, rva as int, 0) is None,
        },
{
    let mut i: u16 = 0;
    while i < sections.count
        invariant
            i <= sections.count,
            sections.start <= 0x2_0000_0000,
            offset_from(file_image(d@), *sections, rva as int, i as int) == offset_from(
                file_image(d@),
                *sections,
                rva as int,
                0,
            ),
        decreases sections.count - i,
    {
        let at: u64 = sections.start + 40 * (i as u64);
        match (dword_at(d, at + 8), dword_at(d, at + 12), dword_at(d, at + 20)) {
            (Some(size), Some(start), Some(raw)) => {
                if start <= rva && (rva as u64) < start as u64 + size as u64 {
                    return Some(raw as u64 + (rva - start) as u64);
                }
            },
            _ => {},
        }
        i = i + 1;
    }
    None
}

fn table_offset(d: &[u8], sections: &Sections, at: u64) -> (r: Option<u64>)
    requires
        sections.start <= 0x2_0000_0000,
    ensures
        match r {
            Some(v) => table_at(file_image(d@), *sections, at as int) == Some(v as int) && v <= 0x1_ffff_ffff,
            None => table_at(file_image(d@), *sections, at as int) is None,
        },
{
    match dword_at(d, at) {
        Some(rva) => to_offset(d, sections, rva),
        None => None,
    }
}

fn find_named(d: &[u8], sections: &Sections, name: &[u8], t: &Tables) -> (r: Option<u32>)
    requires
        sections.start <= 0x2_0000_0000,
        t.count <= MAX_NAMES,
        t.functions <= 0x1_ffff_ffff,
        t.names <= 0x1_ffff_ffff,
        t.ordinals <= 0x1_ffff_ffff,
    ensures
        match r {
            Some(v) => filed_from(file_image(d@), *sections, name@, *t, 0) == Some(v as int),
            None => filed_from(file_image(d@), *sections, name@, *t, 0) is None,
        },
{
    let n: usize = name.len();
    let mut i: u32 = 0;
    while i < t.count
        invariant
            i <= t.count,
            n == name@.len(),
            sections.start <= 0x2_0000_0000,
            t.count <= MAX_NAMES,
            t.functions <= 0x1_ffff_ffff,
            t.names <= 0x1_ffff_ffff,
            t.ordinals <= 0x1_ffff_ffff,
            filed_from(file_image(d@), *sections, name@, *t, i as int) == filed_from(
                file_image(d@),
                *sections,
                name@,
                *t,
                0,
            ),
        decreases t.count - i,
    {
        let at: u64 = match table_offset(d, sections, t.names + 4 * (i as u64)) {
            Some(at) => at,
            None => {
                return None;
            },
        };
        let s: &[u8] = match take(d, at, n) {
            Some(s) => s,
            None => {
                return None;
            },
        };
        if same_bytes(s, name) {
            return match word_at(d, t.ordinals + 2 * (i as u64)) {
                Some(ordinal) => dword_at(d, t.functions + 4 * (ordinal as u64)),
                None => None,
            };
        }
        i = i + 1;
    }
    None
}

/// The RVA of the export called `name` in the PE file `d`, so that a core can
/// be looked at before it is loaded. RVAs go through the section table.
pub fn file_export_rva(d: &[u8], name: &str) -> (r: Option<usize>)
    ensures
        match r {
            Some(v) => filed_export(file_image(d@), terminated(name@)) == Some(v as int),
            None => filed_export(file_image(d@), terminated(name@)) is None,
        },
{
    let wanted: Vec<u8> = with_nul(name);
    let pe: u64 = match dword_at(d, 0x3c) {
        Some(pe) => pe as u64,
        None => {
            return None;
        },
    };
    match dword_at(d, pe) {
        Some(signature) if signature == PE_SIGNATURE => {},
        _ => {
            return None;
        },
    }
    let sections: Sections = match (word_at(d, pe + 6), word_at(d, pe + 20)) {
        (Some(count), Some(optional)) => Sections { start: pe + 24 + optional as u64, count },
        _ => {
            return None;
        },
    };
    let exp: u32 = match dword_at(d, pe + 136) {
        Some(exp) => exp,
        None => {
            return None;
        },
    };
    if exp == 0 {
        return None;
    }
    let dir: u64 = match to_offset(d, &sections, exp) {
        Some(dir) => dir,
        None => {
            return None;
        },
    };
    let tables: Tables = match (
        dword_at(d, dir + 24),
        table_offset(d, &sections, dir + 28),
        table_offset(d, &sections, dir + 32),
        table_offset(d, &sections, dir + 36),
    ) {
        (Some(n), Some(functions), Some(names), Some(ordinals)) => Tables {
            count: if n < MAX_NAMES {
                n
            } else {
                MAX_NAMES
            },
            functions,
            names,
            ordinals,
        },
        _ => {
            return None;
        },
    };
    match find_named(d, &sections, wanted.as_slice(), &tables) {
        Some(v) => Some(v as usize),
        None => None,
    }
}

// ---- who holds a stale core ----

/// Where the hook procedure is in every core that is built.
pub const HOOK_PROC_RVA: usize = 0x1000;

/// A process that holds the core: what could be read of it.
pub struct Holder {
    pub pid: u32,
    pub exe: String,
    /// Where its hook procedure is, if that could be read.
    pub rva: Option<usize>,
    /// It has exited since.
    pub exited: bool,
}

/// The hook would send this process to the wrong place. One that cannot be
/// read counts, unless it is gone.
pub open spec fn stale(h: Holder, me: u32, expected: usize) -> bool {
    h.pid != me && h.rva != Some(expected) && !h.exited
}

pub open spec fn stale_among(hs: Seq<Holder>, me: u32, expected: usize, exe: Seq<char>) -> bool {
    exists|i: int| 0 <= i < hs.len() && stale(#[trigger] hs[i], me, expected) && hs[i].exe@ == exe
}

/// Each text comes before the next: sorted, and nothing twice.
pub open spec fn ascending(v: Seq<String>) -> bool {
    forall|i: int, j: int| 0 <= i < j < v.len() ==> text::before(#[trigger] v[i]@, #[trigger] v[j]@)
}

pub open spec fn among(v: Seq<String>, exe: Seq<char>) -> bool {
    exists|i: int| 0 <= i < v.len() && #[trigger] v[i]@ == exe
}

/// Put `exe` where it belongs, unless it is there.
fn file_name(v: &mut Vec<String>, exe: &String)
    requires
        ascending(old(v)@),
    ensures
        ascending(final(v)@),
        forall|t: Seq<char>| #[trigger] among(final(v)@, t) <==> among(old(v)@, t) || t == exe@,
{
    let chars: Vec<char> = text::chars_of(exe.as_str());
    let mut k: usize = 0;
    while k < v.len()
        invariant
            k <= v@.len(),
            v@ == old(v)@,
            chars@ == exe@,
            ascending(v@),
            forall|i: int| 0 <= i < k ==> text::before(#[trigger] v@[i]@, exe@),
        ensures
            k <= v@.len(),
            v@ == old(v)@,
            forall|i: int| 0 <= i < k ==> text::before(#[trigger] v@[i]@, exe@),
            k < v@.len() ==> !text::before(v@[k as int]@, exe@),
        decreases v@.len() - k,
    {
        let here: Vec<char> = text::chars_of(v[k].as_str());
        if !text::is_before(here.as_slice(), chars.as_slice()) {
            break;
        }
        k = k + 1;
    }
    if k < v.len() {
        let here: Vec<char> = text::chars_of(v[k].as_str());
        if !text::is_before(chars.as_slice(), here.as_slice()) {
            proof {
                text::before_is_total(v@[k as int]@, exe@);
                assert(v@[k as int]@ == exe@);
                assert forall|t: Seq<char>| #[trigger] among(v@, t) <==> among(old(v)@, t) || t == exe@ by {}
            }
            return ;
        }
    }
    let name: String = text::string_of(chars.as_slice());
    v.insert(k, name);
    proof {
        let was = old(v)@;
        assert(v@ == was.insert(k as int, name));
        assert forall|i: int, j: int| 0 <= i < j < v@.len() implies text::before(
            #[trigger] v@[i]@,
            #[trigger] v@[j]@,
        ) by {
            if i < k && j > k {
                assert(v@[i] == was[i] && v@[j] == was[j - 1]);
            } else if j < k {
                assert(v@[i] == was[i] && v@[j] == was[j]);
            } else if i > k {
                assert(v@[i] == was[i - 1] && v@[j] == was[j - 1]);
            } else if j == k {
                assert(v@[i] == was[i]);
            } else {
                assert(v@[j] == was[j - 1]);
                if j - 1 > k {
                    text::before_is_transitive(exe@, was[k as int]@, was[j - 1]@);
                }
            }
        }
        assert forall|t: Seq<char>| #[trigger] among(v@, t) <==> among(was, t) || t == exe@ by {
            if among(was, t) {
                let i = choose|i: int| 0 <= i < was.len() && #[trigger] was[i]@ == t;
                if i < k {
                    assert(v@[i]@ == t);
                } else {
                    assert(v@[i + 1]@ == t);
                }
            }
            if t == exe@ {
                assert(v@[k as int]@ == t);
            }
            if among(v@, t) {
                let i = choose|i: int| 0 <= i < v@.len() && #[trigger] v@[i]@ == t;
                if i < k {
                    assert(was[i]@ == t);
                } else if i > k {
                    assert(was[i - 1]@ == t);
                }
            }
        }
    }
}

/// The names of the processes that hold a core whose hook procedure is not at
/// `expected`, sorted, each once. `me` is the process that asks.
pub fn holders_of_stale_core(holders: &[Holder], me: u32, expected: usize) -> (r: Vec<String>)
    ensures
        ascending(r@),
        forall|exe: Seq<char>| #[trigger] among(r@, exe) <==> stale_among(holders@, me, expected, exe),
{
    let mut r: Vec<String> = Vec::new();
    let mut i: usize = 0;
    proof {
        assert forall|exe: Seq<char>| #[trigger]
            among(r@, exe) <==> stale_among(holders@.take(0), me, expected, exe) by {}
    }
    while i < holders.len()
        invariant
            i <= holders@.len(),
            ascending(r@),
            forall|exe: Seq<char>| #[trigger]
                among(r@, exe) <==> stale_among(holders@.take(i as int), me, expected, exe),
        decreases holders@.len() - i,
    {
        let h: &Holder = &holders[i];
        let right: bool = match h.rva {
            Some(rva) => rva == expected,
            None => false,
        };
        let ghost was = r@;
        let ghost seen = holders@.take(i as int);
        let ghost now = holders@.take(i + 1);
        if h.pid != me && !right && !h.exited {
            file_name(&mut r, &h.exe);
        }
        proof {
            assert(now =~= seen.push(*h));
            assert forall|exe: Seq<char>| #[trigger] among(r@, exe) <==> stale_among(now, me, expected, exe) by {
                if stale_among(seen, me, expected, exe) {
                    let j = choose|j: int|
                        0 <= j < seen.len() && stale(#[trigger] seen[j], me, expected) && seen[j].exe@ == exe;
                    assert(now[j] == seen[j]);
                }
                if stale(*h, me, expected) && exe == h.exe@ {
                    assert(now[i as int] == *h);
                }
                if stale_among(now, me, expected, exe) {
                    let j = choose|j: int|
                        0 <= j < now.len() && stale(#[trigger] now[j], me, expected) && now[j].exe@ == exe;
                    if j < i {
                        assert(seen[j] == now[j]);
                    }
                }
                assert(among(was, exe) <==> stale_among(seen, me, expected, exe));
            }
        }
        i = i + 1;
    }
    proof {
        assert(holders@.take(holders@.len() as int) =~= holders@);
    }
    r
}

/// Whether a module's path, as Windows lists it, is the core's.
pub fn is_core(path: &[u16], core: &str) -> (r: bool)
    ensures
        r == text::same_letters(utf16::decoded(utf16::until_nul(path@), seq!['\u{fffd}']), core@),
{
    let path: String = utf16::wide_to_string(path);
    let path: Vec<char> = text::chars_of(path.as_str());
    let core: Vec<char> = text::chars_of(core);
    text::eq_ignore_case(path.as_slice(), core.as_slice())
}

/// How often a snapshot of a process's modules is tried before it is given up.
pub const SNAPSHOT_TRIES: u32 = 50;

/// Whether to try a snapshot again that failed: only where Windows says that
/// the process was loading modules, and not without end.
pub fn try_again(tries: u32, loading: bool) -> (r: bool)
    ensures
        r == (loading && tries < SNAPSHOT_TRIES),
{
    loading && tries < SNAPSHOT_TRIES
}

// ---- laws ----

/// The four bytes at `at` write `v`, the lowest first.
pub open spec fn holds32(im: Image, at: int, v: int) -> bool {
    (im.get)(at, 4) matches Some(b) && b.len() == 4 && v == b[0] + 0x100 * b[1] + 0x1_0000 * b[2] + 0x100_0000 * b[3]
}

/// The two bytes at `at` write `v`, the lower first.
pub open spec fn holds16(im: Image, at: int, v: int) -> bool {
    (im.get)(at, 2) matches Some(b) && b.len() == 2 && v == b[0] + 0x100 * b[1]
}

/// Name `i` of a table is the first that is called `name`: those before it can
/// be read and are called otherwise. `at` has where each name is.
pub open spec fn first_called(im: Image, at: Seq<int>, name: Seq<u8>, i: int) -> bool {
    &&& 0 <= i < at.len()
    &&& (im.get)(at[i], name.len() as int) == Some(name)
    &&& forall|j: int|
        0 <= j < i ==> ((im.get)(#[trigger] at[j], name.len() as int) matches Some(other) && other != name)
}

/// An export is found in a mapped image: from the PE header, whose offset is at
/// `3C`, through the export directory, whose offset is 136 bytes into that, by
/// the name table, the ordinal of the name and the function table. The tables'
/// offsets stand at 28, 32 and 36 of the directory, and how many names there
/// are at 24. All offsets are from the image's base.
pub proof fn an_export_is_found_by_its_name(
    im: Image,
    base: int,
    name: Seq<u8>,
    pe: int,
    exp: int,
    count: int,
    functions: int,
    names: int,
    ordinals: int,
    at: Seq<int>,
    i: int,
    ordinal: int,
    rva: int,
)
    requires
        0 <= base <= 0x4000_0000_0000_0000,
        holds32(im, base + 0x3c, pe),
        holds32(im, base + pe, 0x4550),
        holds32(im, base + pe + 136, exp),
        exp != 0,
        holds32(im, base + exp + 24, count),
        holds32(im, base + exp + 28, functions),
        holds32(im, base + exp + 32, names),
        holds32(im, base + exp + 36, ordinals),
        at.len() <= count,
        at.len() <= 4096,
        forall|j: int| 0 <= j < at.len() ==> holds32(im, base + names + 4 * j, (#[trigger] at[j]) - base),
        first_called(im, at, name, i),
        holds16(im, base + ordinals + 2 * i, ordinal),
        holds32(im, base + functions + 4 * ordinal, rva),
    ensures
        mapped_export(im, base, name) == Some(rva),
{
    let t = Tables {
        count: capped(count) as u32,
        functions: (base + functions) as u64,
        names: (base + names) as u64,
        ordinals: (base + ordinals) as u64,
    };
    assert(mapped_tables(im, base, base + exp) == Some(t));
    assert(t.count >= at.len());
    mapped_walk(im, base, name, t, at, i, 0);
}

proof fn mapped_walk(im: Image, base: int, name: Seq<u8>, t: Tables, at: Seq<int>, i: int, j: int)
    requires
        at.len() <= t.count,
        forall|j: int| 0 <= j < at.len() ==> holds32(im, t.names + 4 * j, (#[trigger] at[j]) - base),
        first_called(im, at, name, i),
        0 <= j <= i,
    ensures
        mapped_from(im, base, name, t, j) == named_function(im, t, i),
    decreases i - j,
{
    assert(holds32(im, t.names + 4 * j, at[j] - base));
    if j < i {
        mapped_walk(im, base, name, t, at, i, j + 1);
    }
}

/// There is no export without the PE signature, without an export directory,
/// or where every name is another one.
pub proof fn a_missing_export_is_not_found(
    im: Image,
    base: int,
    name: Seq<u8>,
    pe: int,
    exp: int,
    t: Tables,
    at: Seq<int>,
)
    requires
        im.exact(),
        holds32(im, base + 0x3c, pe),
    ensures
        !holds32(im, base + pe, 0x4550) ==> mapped_export(im, base, name) is None,
        holds32(im, base + pe + 136, 0) ==> mapped_export(im, base, name) is None,
        at.len() == t.count && (forall|j: int|
            0 <= j < at.len() ==> holds32(im, t.names + 4 * j, (#[trigger] at[j]) - base) && ((im.get)(
                at[j],
                name.len() as int,
            ) matches Some(other) && other != name)) ==> mapped_from(im, base, name, t, 0) is None,
{
    assert(im.bytes(base + pe, 4) == (im.get)(base + pe, 4));
    if at.len() == t.count && (forall|j: int|
        0 <= j < at.len() ==> holds32(im, t.names + 4 * j, (#[trigger] at[j]) - base) && ((im.get)(
            at[j],
            name.len() as int,
        ) matches Some(other) && other != name)) {
        mapped_end(im, base, name, t, at, 0);
    }
}

proof fn mapped_end(im: Image, base: int, name: Seq<u8>, t: Tables, at: Seq<int>, j: int)
    requires
        at.len() == t.count,
        forall|j: int|
            0 <= j < at.len() ==> holds32(im, t.names + 4 * j, (#[trigger] at[j]) - base) && ((im.get)(
                at[j],
                name.len() as int,
            ) matches Some(other) && other != name),
        0 <= j <= at.len(),
    ensures
        mapped_from(im, base, name, t, j) is None,
    decreases at.len() - j,
{
    if j < at.len() {
        assert(holds32(im, t.names + 4 * j, at[j] - base));
        mapped_end(im, base, name, t, at, j + 1);
    }
}

/// A file's bytes are read as they stand, where all that are asked for are
/// there.
pub proof fn a_file_is_read_as_it_stands(d: Seq<u8>, at: int, n: int, j: int)
    ensures
        0 <= at && 0 <= n && at + n <= d.len() ==> (file_image(d).get)(at, n) is Some,
        at < 0 || n < 0 || at + n > d.len() ==> (file_image(d).get)(at, n) is None,
        (file_image(d).get)(at, n) matches Some(b) ==> b.len() == n && (0 <= j < n ==> b[j] == d[at + j]),
{
}

/// In a file a byte is found by the first section that holds it: the table has
/// 40 bytes for each section, with its size at 8, its offset in the image at
/// 12 and its offset in the file at 20.
pub proof fn a_byte_is_found_by_its_section(
    im: Image,
    sections: Sections,
    rva: int,
    sizes: Seq<int>,
    starts: Seq<int>,
    raws: Seq<int>,
    k: int,
)
    requires
        sizes.len() == sections.count,
        starts.len() == sections.count,
        raws.len() == sections.count,
        forall|j: int|
            0 <= j < sizes.len() ==> {
                let at = sections.start + 40 * j;
                &&& holds32(im, at + 8, #[trigger] sizes[j])
                &&& holds32(im, at + 12, starts[j])
                &&& holds32(im, at + 20, raws[j])
            },
        0 <= k <= sizes.len(),
        forall|j: int| 0 <= j < k ==> !(starts[j] <= rva < starts[j] + #[trigger] sizes[j]),
        k < sizes.len() ==> starts[k] <= rva < starts[k] + sizes[k],
    ensures
        k < sizes.len() ==> offset_from(im, sections, rva, 0) == Some(raws[k] + (rva - starts[k])),
        k == sizes.len() ==> offset_from(im, sections, rva, 0) is None,
{
    section_walk(im, sections, rva, sizes, starts, raws, k, 0);
}

proof fn section_walk(
    im: Image,
    sections: Sections,
    rva: int,
    sizes: Seq<int>,
    starts: Seq<int>,
    raws: Seq<int>,
    k: int,
    j: int,
)
    requires
        sizes.len() == sections.count,
        starts.len() == sections.count,
        raws.len() == sections.count,
        forall|j: int|
            0 <= j < sizes.len() ==> {
                let at = sections.start + 40 * j;
                &&& holds32(im, at + 8, #[trigger] sizes[j])
                &&& holds32(im, at + 12, starts[j])
                &&& holds32(im, at + 20, raws[j])
            },
        0 <= j <= k <= sizes.len(),
        forall|j: int| 0 <= j < k ==> !(starts[j] <= rva < starts[j] + #[trigger] sizes[j]),
        k < sizes.len() ==> starts[k] <= rva < starts[k] + sizes[k],
    ensures
        k < sizes.len() ==> offset_from(im, sections, rva, j) == Some(raws[k] + (rva - starts[k])),
        k == sizes.len() ==> offset_from(im, sections, rva, j) is None,
    decreases k - j,
{
    if j < sizes.len() {
        assert(holds32(im, sections.start + 40 * j + 8, sizes[j]));
    }
    if j < k {
        section_walk(im, sections, rva, sizes, starts, raws, k, j + 1);
    }
}

/// An export is found in a file as it is in an image, but every offset goes
/// through the section table, which has as many entries as the header says at
/// 6 and starts 24 bytes, and as many as it says at 20, into the header. What
/// is found is the offset that the function has in the image.
pub proof fn an_export_is_found_in_a_file(
    im: Image,
    name: Seq<u8>,
    pe: int,
    sections: Sections,
    optional: int,
    exp: int,
    dir: int,
    count: int,
    rvas: (int, int, int),
    t: Tables,
    offsets: Seq<int>,
    at: Seq<int>,
    i: int,
    ordinal: int,
    rva: int,
)
    requires
        holds32(im, 0x3c, pe),
        holds32(im, pe, 0x4550),
        holds16(im, pe + 6, sections.count as int),
        holds16(im, pe + 20, optional),
        sections.start == pe + 24 + optional,
        holds32(im, pe + 136, exp),
        exp != 0,
        offset_from(im, sections, exp, 0) == Some(dir),
        holds32(im, dir + 24, count),
        holds32(im, dir + 28, rvas.0),
        holds32(im, dir + 32, rvas.1),
        holds32(im, dir + 36, rvas.2),
        offset_from(im, sections, rvas.0, 0) == Some(t.functions as int),
        offset_from(im, sections, rvas.1, 0) == Some(t.names as int),
        offset_from(im, sections, rvas.2, 0) == Some(t.ordinals as int),
        at.len() <= count,
        at.len() <= 4096,
        offsets.len() == at.len(),
        forall|j: int|
            0 <= j < at.len() ==> holds32(im, t.names + 4 * j, #[trigger] offsets[j]) && offset_from(
                im,
                sections,
                offsets[j],
                0,
            ) == Some(at[j]),
        first_called(im, at, name, i),
        holds16(im, t.ordinals + 2 * i, ordinal),
        holds32(im, t.functions + 4 * ordinal, rva),
    ensures
        filed_export(im, name) == Some(rva),
{
    let all = Tables { count: capped(count) as u32, ..t };
    assert(sections_of(im, pe) == Some(sections));
    assert(filed_tables(im, sections, dir) == Some(all));
    assert(all.count >= at.len());
    filed_walk(im, sections, name, all, offsets, at, i, 0);
}

proof fn filed_walk(
    im: Image,
    sections: Sections,
    name: Seq<u8>,
    t: Tables,
    offsets: Seq<int>,
    at: Seq<int>,
    i: int,
    j: int,
)
    requires
        at.len() <= t.count,
        offsets.len() == at.len(),
        forall|j: int|
            0 <= j < at.len() ==> holds32(im, t.names + 4 * j, #[trigger] offsets[j]) && offset_from(
                im,
                sections,
                offsets[j],
                0,
            ) == Some(at[j]),
        first_called(im, at, name, i),
        0 <= j <= i,
    ensures
        filed_from(im, sections, name, t, j) == named_function(im, t, i),
    decreases i - j,
{
    assert(offset_from(im, sections, offsets[j], 0) == Some(at[j]));
    assert(im.dword(t.names + 4 * j) == Some(offsets[j]));
    if j < i {
        filed_walk(im, sections, name, t, offsets, at, i, j + 1);
    }
}

/// A process counts as stale unless it is the one that asks, is gone, or has
/// its hook procedure where it is expected.
pub proof fn what_makes_a_holder_stale(h: Holder, me: u32, expected: usize)
    ensures
        h.pid == me ==> !stale(h, me, expected),
        h.exited ==> !stale(h, me, expected),
        h.rva == Some(expected) ==> !stale(h, me, expected),
        h.pid != me && !h.exited && h.rva is None ==> stale(h, me, expected),
        h.pid != me && !h.exited && h.rva is Some && h.rva->0 != expected ==> stale(h, me, expected),
{
}

/// A name is among the stale ones if one of the holders with that name is.
pub proof fn names_of_stale_holders(hs: Seq<Holder>, h: Holder, me: u32, expected: usize, exe: Seq<char>)
    ensures
        !stale_among(seq![], me, expected, exe),
        stale_among(hs.push(h), me, expected, exe) <==> stale_among(hs, me, expected, exe) || (stale(h, me, expected)
            && h.exe@ == exe),
{
    let all = hs.push(h);
    if stale_among(hs, me, expected, exe) {
        let j = choose|j: int| 0 <= j < hs.len() && stale(#[trigger] hs[j], me, expected) && hs[j].exe@ == exe;
        assert(all[j] == hs[j]);
    }
    if stale(h, me, expected) && h.exe@ == exe {
        assert(all[hs.len() as int] == h);
    }
    if stale_among(all, me, expected, exe) {
        let j = choose|j: int| 0 <= j < all.len() && stale(#[trigger] all[j], me, expected) && all[j].exe@ == exe;
        if j < hs.len() {
            assert(hs[j] == all[j]);
        }
    }
}

/// In a sorted list each name comes before those after it, and stands once.
pub proof fn sorted_names_stand_once(v: Seq<String>, i: int, j: int)
    requires
        ascending(v),
        0 <= i < j < v.len(),
    ensures
        text::before(v[i]@, v[j]@),
        v[i]@ != v[j]@,
        among(v, v[i]@),
{
    text::before_is_total(v[i]@, v[j]@);
}

/// A name is looked for with its bytes and a NUL behind them.
pub proof fn a_name_ends_in_a_nul(name: Seq<char>)
    ensures
        terminated(name).drop_last() == vstd::utf8::encode_utf8(name),
        terminated(name).last() == 0,
{
    assert(terminated(name).drop_last() =~= vstd::utf8::encode_utf8(name));
}

} // verus!
