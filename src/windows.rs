//! The parts of the Windows front end that compute: menu command codes,
//! UTF-16 buffers for the Win32 API and what to do when the clipboard changes.
//! The Win32 calls themselves stay with the caller.

use vstd::prelude::*;
use crate::clipboard::{replacement, replacement_for};
use crate::text::{chars_of, decimal, push_decimal, push_str};

verus! {

/// The Windows front end has no settings of its own.
pub struct Config {}

impl Default for Config {
    fn default() -> (r: Config) {
        Config {  }
    }
}

/// The commands of the tray menu.
#[derive(Clone, Copy, Debug, PartialEq, Eq)]
pub enum WmCommand {
    MenuToggleAutoStart,
    MenuOpenConfigFile,
    MenuQuit,
}

impl WmCommand {
    /// The command's identifier in `WM_COMMAND` messages.
    pub open spec fn id(self) -> usize {
        match self {
            WmCommand::MenuToggleAutoStart => 1,
            WmCommand::MenuOpenConfigFile => 2,
            WmCommand::MenuQuit => 3,
        }
    }

    pub fn to_usize(&self) -> (r: usize)
        ensures
            r == self.id(),
    {
        match self {
            WmCommand::MenuToggleAutoStart => 1,
            WmCommand::MenuOpenConfigFile => 2,
            WmCommand::MenuQuit => 3,
        }
    }

    /// Reads a command identifier; any other value is handed back.
    pub fn try_from(value: usize) -> (r: Result<WmCommand, usize>)
        ensures
            match r {
                Ok(cmd) => cmd.id() == value,
                Err(v) => v == value && (value < 1 || value > 3),
            },
    {
        match value {
            1 => Ok(WmCommand::MenuToggleAutoStart),
            2 => Ok(WmCommand::MenuOpenConfigFile),
            3 => Ok(WmCommand::MenuQuit),
            _ => Err(value),
        }
    }
}

/// The UTF-16 code units of a character.
pub open spec fn utf16_units(c: char) -> Seq<u16> {
    let v = c as u32;
    if v < 0x10000 {
        seq![v as u16]
    } else {
        let w = (v - 0x10000) as u32;
        seq![(0xD800 + (w / 0x400) % 0x400) as u16, (0xDC00 + w % 0x400) as u16]
    }
}

/// The UTF-16 encoding of a string.
pub open spec fn utf16_of(s: Seq<char>) -> Seq<u16>
    decreases s.len(),
{
    if s.len() == 0 {
        seq![]
    } else {
        utf16_of(s.drop_last()) + utf16_units(s.last())
    }
}

fn encode_utf16(s: &str) -> (r: Vec<u16>)
    ensures
        r@ == utf16_of(s@),
{
    let chars = chars_of(s);
    let mut r: Vec<u16> = Vec::new();
    let mut i: usize = 0;
    while i < chars.len()
        invariant
            i <= chars@.len(),
            chars@ == s@,
            r@ == utf16_of(chars@.take(i as int)),
        decreases chars@.len() - i,
    {
        let c = chars[i];
        let v = c as u32;
        assert(chars@.take(i + 1).drop_last() =~= chars@.take(i as int));
        if v < 0x10000 {
            r.push(v as u16);
        } else {
            let w = v - 0x10000;
            r.push((0xD800 + (w / 0x400) % 0x400) as u16);
            r.push((0xDC00 + w % 0x400) as u16);
        }
        assert(r@ =~= utf16_of(chars@.take(i + 1)));
        i = i + 1;
    }
    assert(chars@.take(chars@.len() as int) =~= chars@);
    r
}

/// Takes a `&str` and returns a fixed-length, nul-terminated array of UTF-16
/// code units, as some Win32 functions want; fails when the string does not
/// fit with its terminator.
pub fn str_to_u16_nul_term_array<const N: usize>(str: &str) -> (r: Result<[u16; N], String>)
    ensures
        match r {
            Ok(a) => utf16_of(str@).len() < N && a@.take(utf16_of(str@).len() as int) == utf16_of(
                str@,
            ) && forall|i: int| utf16_of(str@).len() <= i < N ==> #[trigger] a@[i] == 0,
            Err(msg) => utf16_of(str@).len() >= N && msg@ == "Cannot fit string data of size "@
                + decimal(utf16_of(str@).len()) + " into array of size "@ + decimal(N as nat),
        },
{
    let data = encode_utf16(str);
    let len = data.len();
    if len >= N {
        let mut msg = String::from_str("Cannot fit string data of size ");
        push_decimal(&mut msg, len);
        push_str(&mut msg, " into array of size ");
        push_decimal(&mut msg, N);
        return Err(msg);
    }
    let mut a: [u16; N] = [0u16; N];
    let mut i: usize = 0;
    while i < len
        invariant
            i <= len < N,
            len == data@.len(),
            a@.len() == N,
            forall|j: int| 0 <= j < i ==> #[trigger] a@[j] == data@[j],
            forall|j: int| len <= j < N ==> #[trigger] a@[j] == 0,
        decreases len - i,
    {
        a[i] = data[i];
        i = i + 1;
    }
    assert(a@.take(len as int) =~= data@);
    Ok(a)
}

/// What to put on the clipboard after it changed to `contents`: its sanitized
/// text, or nothing when there is no text or sanitizing changes nothing.
pub fn handle_clipboard_changed(contents: Option<String>) -> (r: Option<String>)
    ensures
        match contents {
            Some(text) => match r {
                Some(s) => replacement(text@) == Some(s@),
                None => replacement(text@) is None,
            },
            None => r is None,
        },
{
    match contents {
        Some(text) => replacement_for(text.as_str()),
        None => None,
    }
}

} // verus!
