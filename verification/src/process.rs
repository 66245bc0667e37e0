//! Picking the process and the thread to hook, for the tools that hook one
//! program only.

use vstd::prelude::*;

use crate::text;
use crate::utf16;

verus! {

/// A process, as a snapshot lists it.
pub struct Process {
    pub pid: u32,
    /// The field that holds its program's name.
    pub exe: Vec<u16>,
}

/// A thread, as a snapshot lists it.
#[derive(Clone, Copy, Debug, PartialEq, Eq, Structural)]
pub struct Thread {
    pub owner: u32,
    pub tid: u32,
}

/// The process runs the program `name`, whatever the case.
pub open spec fn runs(p: Process, name: Seq<char>) -> bool {
    text::same_letters(utf16::decoded(utf16::ended(p.exe@), seq!['\u{fffd}']), name)
}

/// The first process that runs the program `name`.
pub fn find_pid(list: &[Process], name: &str) -> (r: Option<u32>)
    ensures
        match r {
            Some(pid) => exists|i: int|
                0 <= i < list@.len() && #[trigger] runs(list@[i], name@) && list@[i].pid == pid && forall|j: int|
                    0 <= j < i ==> !#[trigger] runs(list@[j], name@),
            None => forall|i: int| 0 <= i < list@.len() ==> !#[trigger] runs(list@[i], name@),
        },
{
    let want: Vec<char> = text::chars_of(name);
    let mut i: usize = 0;
    while i < list.len()
        invariant
            i <= list@.len(),
            want@ == name@,
            forall|j: int| 0 <= j < i ==> !#[trigger] runs(list@[j], name@),
        decreases list@.len() - i,
    {
        let exe: String = utf16::ended_to_string(list[i].exe.as_slice());
        let exe: Vec<char> = text::chars_of(exe.as_str());
        if text::eq_ignore_case(exe.as_slice(), want.as_slice()) {
            assert(runs(list@[i as int], name@));
            return Some(list[i].pid);
        }
        i = i + 1;
    }
    None
}

/// The first thread of process `pid`.
pub fn first_thread(list: &[Thread], pid: u32) -> (r: Option<u32>)
    ensures
        match r {
            Some(tid) => exists|i: int|
                0 <= i < list@.len() && #[trigger] list@[i] == (Thread { owner: pid, tid }) && forall|j: int|
                    0 <= j < i ==> (#[trigger] list@[j]).owner != pid,
            None => forall|i: int| 0 <= i < list@.len() ==> (#[trigger] list@[i]).owner != pid,
        },
{
    let mut i: usize = 0;
    while i < list.len()
        invariant
            i <= list@.len(),
            forall|j: int| 0 <= j < i ==> (#[trigger] list@[j]).owner != pid,
        decreases list@.len() - i,
    {
        if list[i].owner == pid {
            assert(list@[i as int] == (Thread { owner: pid, tid: list@[i as int].tid }));
            return Some(list[i].tid);
        }
        i = i + 1;
    }
    None
}

/// The threads of process `pid` but for `me`: those to stop while code that
/// they may be running is changed.
pub open spec fn others(list: Seq<Thread>, pid: u32, me: u32) -> Seq<u32>
    decreases list.len(),
{
    if list.len() == 0 {
        seq![]
    } else if list.last().owner == pid && list.last().tid != me {
        others(list.drop_last(), pid, me).push(list.last().tid)
    } else {
        others(list.drop_last(), pid, me)
    }
}

pub fn all_but(list: &[Thread], pid: u32, me: u32) -> (r: Vec<u32>)
    ensures
        r@ == others(list@, pid, me),
{
    let mut r: Vec<u32> = Vec::new();
    let mut i: usize = 0;
    while i < list.len()
        invariant
            i <= list@.len(),
            r@ == others(list@.take(i as int), pid, me),
        decreases list@.len() - i,
    {
        proof {
            assert(list@.take(i + 1).drop_last() =~= list@.take(i as int));
            assert(list@.take(i + 1).last() == list@[i as int]);
        }
        if list[i].owner == pid && list[i].tid != me {
            r.push(list[i].tid);
        }
        i = i + 1;
    }
    proof {
        assert(list@.take(list@.len() as int) =~= list@);
    }
    r
}

/// How long to stay hooked where nothing, or no number, is said.
pub const DEFAULT_SECONDS: u64 = 15;

pub open spec fn seconds_of(arg: Option<Seq<char>>) -> int {
    match arg {
        Some(s) => match text::natural(s) {
            Some(n) => if n <= u64::MAX {
                n
            } else {
                DEFAULT_SECONDS as int
            },
            None => DEFAULT_SECONDS as int,
        },
        None => DEFAULT_SECONDS as int,
    }
}

/// How many seconds to stay hooked.
pub fn seconds(arg: Option<&str>) -> (r: u64)
    ensures
        r == seconds_of(
            match arg {
                Some(s) => Some(s@),
                None => None,
            },
        ),
{
    match arg {
        Some(s) => {
            let chars: Vec<char> = text::chars_of(s);
            match text::parse_unsigned(chars.as_slice(), u64::MAX) {
                Some(n) => n,
                None => DEFAULT_SECONDS,
            }
        },
        None => DEFAULT_SECONDS,
    }
}

// ---- laws ----

/// A process runs the program that its field names, up to the field's NUL.
pub proof fn a_process_runs_what_its_field_names(p: Process, exe: Seq<char>, rest: Seq<u16>, name: Seq<char>)
    requires
        p.exe@ == utf16::encoded(exe) + seq![0u16] + rest,
        forall|i: int| 0 <= i < exe.len() ==> #[trigger] exe[i] != '\0',
    ensures
        runs(p, name) <==> text::same_letters(exe, name),
{
    let units = utf16::encoded(exe);
    let at = units.len() as int;
    utf16::no_nul_in_encoded(exe);
    assert forall|i: int| 0 <= i < at implies #[trigger] p.exe@[i] != 0 by {
        assert(p.exe@[i] == units[i]);
    }
    utf16::units_end_at_the_first_nul(p.exe@, at);
    assert(p.exe@.take(at) =~= units);
    utf16::decode_undoes_encode(exe, seq!['\u{fffd}']);
}

/// A thread is to be stopped exactly if it is of the process and is not the
/// one that stops them; the threads stay in their order.
pub proof fn the_other_threads_of_the_process(list: Seq<Thread>, t: Thread, pid: u32, me: u32)
    ensures
        others(seq![], pid, me) == Seq::<u32>::empty(),
        t.owner == pid && t.tid != me ==> others(list.push(t), pid, me) == others(list, pid, me).push(t.tid),
        t.owner != pid || t.tid == me ==> others(list.push(t), pid, me) == others(list, pid, me),
{
    assert(list.push(t).drop_last() =~= list);
}

/// A number of seconds is taken as it is written; without one it is 15.
pub proof fn seconds_are_taken_as_written(n: int, s: Seq<char>)
    requires
        0 <= n <= u64::MAX,
    ensures
        seconds_of(Some(text::numeral(n))) == n,
        seconds_of(None) == 15,
        text::natural(s) is None ==> seconds_of(Some(s)) == 15,
{
    text::numerals_are_natural(n);
}

} // verus!
