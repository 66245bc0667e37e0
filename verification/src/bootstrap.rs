//! Loading the core from next to the module that asks for it.

use vstd::prelude::*;

use crate::utf16;

verus! {

/// The file name of the core.
pub const CORE: &'static str = "RenderCore64.dll";

/// The longest module path that Windows has, in code units.
pub const MAX_PATH_UNITS: usize = 0x8000;

/// What to do after asking for a module's path with a buffer of some length.
#[derive(Clone, Copy, Debug, PartialEq, Eq, Structural)]
pub enum PathStep {
    /// The path fills the first so many units.
    Done(usize),
    /// Ask again, with a buffer of this length.
    Grow(usize),
    /// There is no path to be had.
    Fail,
}

/// The step after `GetModuleFileNameW` returned `n` for a buffer of `len`: 0
/// is a failure, and a path as long as the buffer was cut off.
pub fn path_step(n: usize, len: usize) -> (r: PathStep)
    ensures
        r == (if n == 0 {
            PathStep::Fail
        } else if n < len {
            PathStep::Done(n)
        } else if len >= MAX_PATH_UNITS {
            PathStep::Fail
        } else {
            PathStep::Grow((len * 2) as usize)
        }),
{
    if n == 0 {
        PathStep::Fail
    } else if n < len {
        PathStep::Done(n)
    } else if len >= MAX_PATH_UNITS {
        PathStep::Fail
    } else {
        PathStep::Grow(len * 2)
    }
}

/// Where the last backslash stands, or -1.
pub open spec fn last_slash(path: Seq<u16>) -> int
    decreases path.len(),
{
    if path.len() == 0 {
        -1
    } else if path.last() == 0x5c {
        path.len() - 1
    } else {
        last_slash(path.drop_last())
    }
}

/// The path of the core in the directory of the module at `path`, with a 0
/// behind it.
pub open spec fn beside(path: Seq<u16>) -> Option<Seq<u16>> {
    if last_slash(path) < 0 {
        None
    } else {
        Some((path.take(last_slash(path) + 1) + utf16::encoded(CORE@)).push(0))
    }
}

/// The path of the core in the directory of the module at `path`, with a 0
/// behind it; `None` for a path without a directory.
pub fn core_path(path: &[u16]) -> (r: Option<Vec<u16>>)
    ensures
        match r {
            Some(v) => beside(path@) == Some(v@),
            None => beside(path@) is None,
        },
{
    let mut end: usize = path.len();
    proof {
        assert(path@.take(end as int) =~= path@);
    }
    while end > 0 && path[end - 1] != 0x5c
        invariant
            end <= path@.len(),
            last_slash(path@.take(end as int)) == last_slash(path@),
        decreases end,
    {
        proof {
            assert(path@.take(end as int).drop_last() =~= path@.take(end - 1));
        }
        end = end - 1;
    }
    if end == 0 {
        return None;
    }
    assert(path@.take(end as int).last() == path@[end - 1]);
    let mut out: Vec<u16> = Vec::new();
    let mut i: usize = 0;
    while i < end
        invariant
            i <= end <= path@.len(),
            out@ == path@.take(i as int),
        decreases end - i,
    {
        out.push(path[i]);
        proof {
            assert(path@.take(i + 1) =~= path@.take(i as int).push(path@[i as int]));
        }
        i = i + 1;
    }
    let mut name: Vec<u16> = utf16::wide(CORE);
    out.append(&mut name);
    proof {
        assert(out@ =~= (path@.take(last_slash(path@) + 1) + utf16::encoded(CORE@)).push(0));
    }
    Some(out)
}

// ---- laws ----

/// The core's path lies in the module's own directory: it keeps everything up
/// to the last backslash, and has none after it.
pub proof fn the_core_is_in_the_same_directory(path: Seq<u16>)
    requires
        last_slash(path) >= 0,
    ensures
        beside(path) is Some,
        ({
            let p = beside(path)->0;
            &&& p.take(last_slash(path) + 1) == path.take(last_slash(path) + 1)
            &&& path[last_slash(path)] == 0x5c
            &&& p.skip(last_slash(path) + 1) == utf16::encoded(CORE@).push(0)
        }),
{
    last_slash_found(path);
    let p = beside(path)->0;
    assert(p.take(last_slash(path) + 1) =~= path.take(last_slash(path) + 1));
    assert(p.skip(last_slash(path) + 1) =~= utf16::encoded(CORE@).push(0));
}

proof fn last_slash_found(path: Seq<u16>)
    ensures
        -1 <= last_slash(path) < path.len(),
        last_slash(path) >= 0 ==> path[last_slash(path)] == 0x5c,
    decreases path.len(),
{
    if path.len() > 0 && path.last() != 0x5c {
        last_slash_found(path.drop_last());
    }
}

/// Growing the buffer ends: within eight steps from the first length of 260
/// units the longest path has room.
pub proof fn growing_ends(n: nat)
    ensures
        n >= 7 ==> grown(260, n) >= MAX_PATH_UNITS,
    decreases n,
{
    if n > 7 {
        growing_ends((n - 1) as nat);
    } else if n == 7 {
        reveal_with_fuel(grown, 8);
    }
}

/// A buffer length doubled `n` times.
pub open spec fn grown(len: int, n: nat) -> int
    decreases n,
{
    if n == 0 {
        len
    } else {
        2 * grown(len, (n - 1) as nat)
    }
}

/// Whatever the module is called, the core is looked for in its directory,
/// under the core's own name.
pub proof fn the_core_stands_beside_the_module(directory: Seq<u16>, file: Seq<u16>)
    requires
        forall|i: int| 0 <= i < file.len() ==> #[trigger] file[i] != 0x5c,
    ensures
        beside(directory + seq![0x5cu16] + file) == Some(
            (directory + seq![0x5cu16] + utf16::encoded("RenderCore64.dll"@)).push(0),
        ),
        beside(file) is None,
{
    the_last_slash_is_there(directory + seq![0x5cu16], file);
    the_last_slash_is_there(seq![], file);
    assert(Seq::<u16>::empty() + file =~= file);
    let path = directory + seq![0x5cu16] + file;
    assert(path.take(directory.len() as int + 1) =~= directory + seq![0x5cu16]);
}

proof fn the_last_slash_is_there(before: Seq<u16>, file: Seq<u16>)
    requires
        before.len() > 0 ==> before.last() == 0x5c,
        forall|i: int| 0 <= i < file.len() ==> #[trigger] file[i] != 0x5c,
    ensures
        last_slash(before + file) == before.len() - 1,
    decreases file.len(),
{
    if file.len() > 0 {
        assert((before + file).last() == file[file.len() - 1]);
        assert((before + file).drop_last() =~= before + file.drop_last());
        the_last_slash_is_there(before, file.drop_last());
    } else {
        assert(before + file =~= before);
    }
}

} // verus!
