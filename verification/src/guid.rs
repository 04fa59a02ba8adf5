//! Content hashes and the identifiers derived from them.

use std::collections::hash_map::DefaultHasher;
use std::hash::Hasher;
use vstd::prelude::*;
use vstd::std_specs::convert::FromSpecImpl;
use vstd::std_specs::hash::DefaultHasherAdditionalSpecFns;
use vstd::string::StringExecFns;

verus! {

/// Structural content hash of a function's code shape. Distinct functions may share one.
#[derive(Clone, Copy, Debug, PartialEq, Eq, Hash, Structural)]
pub struct FunctionGUID {
    pub guid: u128,
}

/// Structural content hash of a type definition. It identifies a type whatever its name.
#[derive(Clone, Copy, Debug, PartialEq, Eq, Hash, Structural)]
pub struct TypeGUID {
    pub guid: u128,
}

/// The lower-case hexadecimal digit for a value below sixteen.
pub open spec fn hex_char(n: u8) -> char {
    seq!['0', '1', '2', '3', '4', '5', '6', '7', '8', '9', 'a', 'b', 'c', 'd', 'e', 'f'][n as int]
}

/// The `k`-th group of four bits of `guid`, counted from the most significant one.
pub open spec fn nibble(guid: u128, k: int) -> u8 {
    ((guid >> ((4 * (31 - k)) as u128)) & 0xf) as u8
}

/// The digits `from..to` of the 32 hexadecimal digits of `guid`.
pub open spec fn hex_run(guid: u128, from: int, to: int) -> Seq<char> {
    Seq::new((to - from) as nat, |i: int| hex_char(nibble(guid, from + i)))
}

/// The text of an identifier: 32 lower-case hexadecimal digits, most significant first,
/// in groups of 8, 4, 4, 4 and 12 that a hyphen separates.
pub open spec fn id_text(guid: u128) -> Seq<char> {
    hex_run(guid, 0, 8) + seq!['-'] + hex_run(guid, 8, 12) + seq!['-'] + hex_run(guid, 12, 16)
        + seq!['-'] + hex_run(guid, 16, 20) + seq!['-'] + hex_run(guid, 20, 32)
}

fn hex_str(n: u8) -> (s: &'static str)
    requires
        n < 16,
    ensures
        s@ == seq![hex_char(n)],
{
    proof {
        reveal_strlit("0");
        reveal_strlit("1");
        reveal_strlit("2");
        reveal_strlit("3");
        reveal_strlit("4");
        reveal_strlit("5");
        reveal_strlit("6");
        reveal_strlit("7");
        reveal_strlit("8");
        reveal_strlit("9");
        reveal_strlit("a");
        reveal_strlit("b");
        reveal_strlit("c");
        reveal_strlit("d");
        reveal_strlit("e");
        reveal_strlit("f");
    }
    match n {
        0 => "0",
        1 => "1",
        2 => "2",
        3 => "3",
        4 => "4",
        5 => "5",
        6 => "6",
        7 => "7",
        8 => "8",
        9 => "9",
        10 => "a",
        11 => "b",
        12 => "c",
        13 => "d",
        14 => "e",
        _ => "f",
    }
}

fn append_hex_run(text: &mut String, guid: u128, from: u8, to: u8)
    requires
        from <= to <= 32,
    ensures
        final(text)@ == old(text)@ + hex_run(guid, from as int, to as int),
{
    let mut k: u8 = from;
    while k < to
        invariant
            from <= k <= to <= 32,
            text@ == old(text)@ + hex_run(guid, from as int, k as int),
        decreases to - k,
    {
        let shift: u128 = 4 * (31 - k) as u128;
        let n: u128 = (guid >> shift) & 0xf;
        assert(n < 16) by (bit_vector)
            requires
                n == (guid >> shift) & 0xf,
        ;
        text.append(hex_str(n as u8));
        k += 1;
    }
}

impl TypeGUID {
    /// The identifier under which the type is registered.
    pub fn id_string(&self) -> (text: String)
        ensures
            text@ == id_text(self.guid),
    {
        proof {
            reveal_strlit("-");
        }
        let mut text = String::new();
        append_hex_run(&mut text, self.guid, 0, 8);
        text.append("-");
        append_hex_run(&mut text, self.guid, 8, 12);
        text.append("-");
        append_hex_run(&mut text, self.guid, 12, 16);
        text.append("-");
        append_hex_run(&mut text, self.guid, 16, 20);
        text.append("-");
        append_hex_run(&mut text, self.guid, 20, 32);
        text
    }
}

/// Identity of a platform, for use as a cache key: the hash of the platform's name.
/// Two names may share one.
#[derive(Clone, Copy, Debug, Hash, PartialEq, Eq, PartialOrd, Ord, Structural)]
pub struct PlatformID(pub u64);

/// The hash that a fresh `DefaultHasher` gives after one write of `name`.
pub open spec fn platform_hash(name: Seq<u8>) -> u64 {
    DefaultHasher::spec_finish(seq![name])
}

impl From<&[u8]> for PlatformID {
    fn from(name: &[u8]) -> (id: PlatformID) {
        let mut hasher = DefaultHasher::new();
        hasher.write(name);
        PlatformID(hasher.finish())
    }
}

impl FromSpecImpl<&[u8]> for PlatformID {
    open spec fn obeys_from_spec() -> bool {
        true
    }

    open spec fn from_spec(name: &[u8]) -> PlatformID {
        PlatformID(platform_hash(name@))
    }
}

} // verus!
