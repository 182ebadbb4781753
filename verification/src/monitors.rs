//! The decisions of the individual monitors: keys, command-line choices,
//! device selection, counters, and the ping statistics.
use vstd::prelude::*;
use crate::text::{
    chars_of, has_prefix, parse_u32, parse_u32_spec, parse_u64, parse_u64_spec, replace_all,
    replace_spec, same, starts_with, string_of, trim, trim_ascii, trim_ascii_spec, trim_spec,
    views, words, words_spec,
};

verus! {

// ---------------------------------------------------------------------------
// Keys
// ---------------------------------------------------------------------------

/// What a key pressed in a monitor asks for.
#[derive(Clone, Copy, Debug, PartialEq, Eq, Structural)]
pub enum KeyCommand {
    /// `q`: leave.
    Quit,
    /// `+`: a longer refresh interval.
    Increase,
    /// `-`: a shorter refresh interval.
    Decrease,
    /// Any other key.
    Ignore,
}

pub fn decode_key(k: u8) -> (c: KeyCommand)
    ensures
        c == if k == 113 {
            KeyCommand::Quit
        } else if k == 43 {
            KeyCommand::Increase
        } else if k == 45 {
            KeyCommand::Decrease
        } else {
            KeyCommand::Ignore
        },
{
    if k == 113 {
        KeyCommand::Quit
    } else if k == 43 {
        KeyCommand::Increase
    } else if k == 45 {
        KeyCommand::Decrease
    } else {
        KeyCommand::Ignore
    }
}

// ---------------------------------------------------------------------------
// Battery
// ---------------------------------------------------------------------------

/// The battery monitor's refresh pace: a sample every `secs` seconds.
pub struct BatteryPace {
    pub secs: u32,
}

impl BatteryPace {
    /// One sample a second.
    pub fn new() -> (p: BatteryPace)
        ensures
            p.secs == 1,
    {
        BatteryPace { secs: 1 }
    }

    /// The pace range: from one to a hundred seconds.
    pub open spec fn in_range(&self) -> bool {
        1 <= self.secs <= 100
    }

    /// Applies a key: `+` slows down by a second up to a hundred, `-` speeds
    /// up by a second down to one. Answers whether the key asks to leave.
    pub fn apply(&mut self, cmd: KeyCommand) -> (quit: bool)
        ensures
            quit == (cmd == KeyCommand::Quit),
            old(self).in_range() ==> final(self).in_range(),
            final(self).secs == match cmd {
                KeyCommand::Increase => if old(self).secs + 1 <= 100 {
                    old(self).secs + 1
                } else {
                    100
                },
                KeyCommand::Decrease => if old(self).secs > 1 {
                    old(self).secs - 1
                } else {
                    1
                },
                _ => old(self).secs as int,
            },
    {
        match cmd {
            KeyCommand::Quit => true,
            KeyCommand::Increase => {
                self.secs = if self.secs < 100 {
                    self.secs + 1
                } else {
                    100
                };
                false
            },
            KeyCommand::Decrease => {
                if self.secs > 1 {
                    self.secs = self.secs - 1;
                } else {
                    self.secs = 1;
                }
                false
            },
            KeyCommand::Ignore => false,
        }
    }

    /// Whether half-second tick `tick` takes a sample: every `2 * secs`
    /// ticks.
    pub fn sample_due(&self, tick: u64) -> (b: bool)
        requires
            self.secs >= 1,
        ensures
            b == (tick % (2 * self.secs as int) as u64 == 0),
    {
        tick % (2 * self.secs as u64) == 0
    }
}

/// Whatever keys are pressed, the pace stays between one and a hundred
/// seconds.
pub proof fn pace_stays_in_range(secs: u32, cmd: KeyCommand)
    requires
        1 <= secs <= 100,
    ensures
        ({
            let next = match cmd {
                KeyCommand::Increase => if secs + 1 <= 100 {
                    secs + 1
                } else {
                    100
                },
                KeyCommand::Decrease => if secs > 1 {
                    secs - 1
                } else {
                    1
                },
                _ => secs as int,
            };
            1 <= next <= 100
        }),
{
}

/// The battery monitor's mode from its argument: `charge` (also with no
/// argument) graphs the charge, `usage` the power draw; anything else is
/// refused.
pub fn parse_battery_mode(arg: Option<&str>) -> (r: Option<bool>)
    ensures
        r == match arg {
            None => Some(true),
            Some(a) => if a@ == "charge"@ {
                Some(true)
            } else if a@ == "usage"@ {
                Some(false)
            } else {
                None::<bool>
            },
        },
{
    match arg {
        None => Some(true),
        Some(a) => {
            let v = chars_of(a);
            if same(&v, &chars_of("charge")) {
                Some(true)
            } else if same(&v, &chars_of("usage")) {
                Some(false)
            } else {
                None
            }
        },
    }
}

/// A power supply is a battery when its `type` file, without surrounding
/// ASCII whitespace, reads `Battery`.
pub fn is_battery(type_text: &str) -> (b: bool)
    ensures
        b == (trim_ascii_spec(type_text@) == "Battery"@),
{
    same(&trim_ascii(&chars_of(type_text)), &chars_of("Battery"))
}

// ---------------------------------------------------------------------------
// Network
// ---------------------------------------------------------------------------

/// Why the network monitor's argument is refused.
#[derive(Clone, Copy, Debug, PartialEq, Eq, Structural)]
pub enum DirectionError {
    Missing,
    Unknown,
}

/// The direction the network monitor graphs: `dl`, `download`, `d` and
/// `down` mean received bytes (`false`), `up` and `upload` sent bytes
/// (`true`).
pub fn parse_direction(arg: Option<&str>) -> (r: Result<bool, DirectionError>)
    ensures
        r == match arg {
            None => Err(DirectionError::Missing),
            Some(a) => if a@ == "dl"@ || a@ == "download"@ || a@ == "d"@ || a@ == "down"@ {
                Ok(false)
            } else if a@ == "up"@ || a@ == "upload"@ {
                Ok(true)
            } else {
                Err::<bool, DirectionError>(DirectionError::Unknown)
            },
        },
{
    match arg {
        None => Err(DirectionError::Missing),
        Some(a) => {
            let v = chars_of(a);
            if same(&v, &chars_of("dl")) || same(&v, &chars_of("download")) || same(
                &v,
                &chars_of("d"),
            ) || same(&v, &chars_of("down")) {
                Ok(false)
            } else if same(&v, &chars_of("up")) || same(&v, &chars_of("upload")) {
                Ok(true)
            } else {
                Err(DirectionError::Unknown)
            }
        },
    }
}

/// `b` starts with the bytes of `lo`.
pub open spec fn is_loopback_name(b: Seq<u8>) -> bool {
    b.len() >= 2 && b[0] == 108 && b[1] == 111
}

/// The first interface whose name does not start with `lo`.
pub fn select_interface(names: &Vec<Vec<u8>>) -> (r: Option<usize>)
    ensures
        r matches Some(i) ==> i < names.len() && !is_loopback_name(names@[i as int]@) && forall|
            j: int,
        |
            0 <= j < i ==> is_loopback_name(#[trigger] names@[j]@),
        r is None ==> forall|j: int|
            0 <= j < names.len() ==> is_loopback_name(#[trigger] names@[j]@),
{
    let mut i: usize = 0;
    while i < names.len()
        invariant
            i <= names.len(),
            forall|j: int| 0 <= j < i ==> is_loopback_name(#[trigger] names@[j]@),
        decreases names.len() - i,
    {
        let n = &names[i];
        if !(n.len() >= 2 && n[0] == 108u8 && n[1] == 111u8) {
            return Some(i);
        }
        i += 1;
    }
    None
}

/// A byte counter file's value: its text, trimmed, as an unsigned number.
pub fn parse_counter(text: &str) -> (r: Option<u64>)
    ensures
        r == parse_u64_spec(trim_spec(text@)),
{
    parse_u64(&trim(&chars_of(text)))
}

// ---------------------------------------------------------------------------
// Disk
// ---------------------------------------------------------------------------

/// The disk monitor's access argument: `r` graphs reads, `w` writes.
pub fn parse_access(arg: Option<&str>) -> (r: Option<bool>)
    ensures
        r == match arg {
            Some(a) => if a@ == "r"@ {
                Some(false)
            } else if a@ == "w"@ {
                Some(true)
            } else {
                None::<bool>
            },
            None => None::<bool>,
        },
{
    match arg {
        Some(a) => {
            let v = chars_of(a);
            if same(&v, &chars_of("r")) {
                Some(false)
            } else if same(&v, &chars_of("w")) {
                Some(true)
            } else {
                None
            }
        },
        None => None,
    }
}

/// The first block device whose name starts with `prefix`.
pub fn select_device(names: &Vec<String>, prefix: &str) -> (r: Option<usize>)
    ensures
        r matches Some(i) ==> i < names.len() && starts_with(names@[i as int]@, prefix@) && forall|
            j: int,
        |
            0 <= j < i ==> !starts_with(#[trigger] names@[j]@, prefix@),
        r is None ==> forall|j: int|
            0 <= j < names.len() ==> !starts_with(#[trigger] names@[j]@, prefix@),
{
    let p = chars_of(prefix);
    let mut i: usize = 0;
    while i < names.len()
        invariant
            i <= names.len(),
            p@ == prefix@,
            forall|j: int| 0 <= j < i ==> !starts_with(#[trigger] names@[j]@, prefix@),
        decreases names.len() - i,
    {
        if has_prefix(&chars_of(names[i].as_str()), &p) {
            return Some(i);
        }
        i += 1;
    }
    None
}

/// The numbers among the words: each word that reads as a `u32`, in order.
pub open spec fn u32_words(ws: Seq<Seq<char>>) -> Seq<u32>
    decreases ws.len(),
{
    if ws.len() == 0 {
        seq![]
    } else {
        match parse_u32_spec(ws.last()) {
            Some(v) => u32_words(ws.drop_last()).push(v),
            None => u32_words(ws.drop_last()),
        }
    }
}

/// The sectors read (field 2) or written (field 6) that a block device's
/// `stat` file counts, among its first eight numeric fields. `None` when it
/// has fewer than eight.
pub open spec fn sectors_spec(stat: Seq<char>, write: bool) -> Option<u32> {
    let ns = u32_words(words_spec(stat));
    if ns.len() >= 8 {
        Some(
            if write {
                ns[6]
            } else {
                ns[2]
            },
        )
    } else {
        None
    }
}

/// Reads the sector count of a block device's `stat` file.
pub fn disk_sectors(stat: &str, write: bool) -> (r: Option<u32>)
    ensures
        r == sectors_spec(stat@, write),
{
    let ws = words(&chars_of(stat));
    let ghost vs = views(ws@);
    let mut ns: Vec<u32> = Vec::new();
    let mut i: usize = 0;
    while i < ws.len()
        invariant
            i <= ws.len(),
            vs == views(ws@),
            ns@ == u32_words(vs.take(i as int)),
        decreases ws.len() - i,
    {
        proof {
            assert(vs.take(i + 1).drop_last() =~= vs.take(i as int));
            assert(vs.take(i + 1).last() == ws@[i as int]@);
        }
        match parse_u32(&ws[i]) {
            Some(v) => ns.push(v),
            None => {},
        }
        i += 1;
    }
    proof {
        assert(vs.take(i as int) =~= vs);
    }
    if ns.len() >= 8 {
        Some(
            if write {
                ns[6]
            } else {
                ns[2]
            },
        )
    } else {
        None
    }
}

/// The bytes that `new - last` sectors of 512 bytes hold, or `None` when the
/// counter went backwards or the product exceeds `u32::MAX`.
pub fn sector_bytes(new: u32, last: u32) -> (r: Option<u32>)
    ensures
        r == if new >= last && (new - last) * 512 <= u32::MAX {
            Some(((new - last) * 512) as u32)
        } else {
            None::<u32>
        },
{
    if new < last {
        return None;
    }
    (new - last).checked_mul(512)
}

// ---------------------------------------------------------------------------
// GPU
// ---------------------------------------------------------------------------

/// An NVIDIA card's name with `NVIDIA GeForce RTX` shortened to `RTX`.
pub fn short_gpu_name(name: &str) -> (r: String)
    ensures
        r@ == replace_spec(name@, "NVIDIA GeForce RTX"@, "RTX"@),
{
    proof {
        reveal_strlit("NVIDIA GeForce RTX");
    }
    string_of(&replace_all(&chars_of(name), &chars_of("NVIDIA GeForce RTX"), &chars_of("RTX")))
}

} // verus!
