//! The dope sheet's inline rename field: typed keys edit a buffer held apart
//! from the stack (so `Esc` never touches it), `Enter` commits, and an empty
//! or whitespace-only name is rejected (the prior name stays).

use vstd::prelude::*;

use crate::versions::{chars_of, string_from_chars};

verus! {

/// A key press the field reacts to.
#[derive(Debug)]
pub enum TextKey {
    Escape,
    Enter,
    Backspace,
    Space,
    /// Printable text the key produced.
    Text(String),
    /// Anything else (ignored).
    Other,
}

/// The buffer after one key.
pub open spec fn key_step(b: Seq<char>, k: TextKey) -> Seq<char> {
    match k {
        TextKey::Backspace => if b.len() > 0 {
            b.drop_last()
        } else {
            b
        },
        TextKey::Space => b.push(' '),
        TextKey::Text(t) => b + t@,
        _ => b,
    }
}

/// The buffer after `keys`, in order.
pub open spec fn typed_buffer(b: Seq<char>, keys: Seq<TextKey>) -> Seq<char>
    decreases keys.len(),
{
    if keys.len() == 0 {
        b
    } else {
        key_step(typed_buffer(b, keys.drop_last()), keys.last())
    }
}

/// How the last finishing key among `keys` ends the edit: `Enter` commits
/// (`true`), `Esc` cancels (`false`).
pub open spec fn finish_of(keys: Seq<TextKey>) -> Option<bool>
    decreases keys.len(),
{
    if keys.len() == 0 {
        None
    } else {
        match keys.last() {
            TextKey::Escape => Some(false),
            TextKey::Enter => Some(true),
            _ => finish_of(keys.drop_last()),
        }
    }
}

/// Applies one frame's key presses to the buffer; the result says whether
/// the edit ends, and how (the last of `Enter`/`Esc` pressed wins).
pub fn rename_input(buffer: &mut Vec<char>, keys: &Vec<TextKey>) -> (finish: Option<bool>)
    ensures
        final(buffer)@ == typed_buffer(old(buffer)@, keys@),
        finish == finish_of(keys@),
{
    let mut finish: Option<bool> = None;
    let mut i: usize = 0;
    while i < keys.len()
        invariant
            i <= keys@.len(),
            buffer@ == typed_buffer(old(buffer)@, keys@.subrange(0, i as int)),
            finish == finish_of(keys@.subrange(0, i as int)),
        decreases keys@.len() - i,
    {
        proof {
            assert(keys@.subrange(0, i + 1).drop_last() =~= keys@.subrange(0, i as int));
            assert(keys@.subrange(0, i + 1).last() == keys@[i as int]);
        }
        match &keys[i] {
            TextKey::Escape => {
                finish = Some(false);
            },
            TextKey::Enter => {
                finish = Some(true);
            },
            TextKey::Backspace => {
                if buffer.len() > 0 {
                    let _ = buffer.pop();
                    proof {
                        assert(buffer@ =~= typed_buffer(old(buffer)@, keys@.subrange(0, i as int)).drop_last());
                    }
                }
            },
            TextKey::Space => {
                buffer.push(' ');
            },
            TextKey::Text(t) => {
                let cs = chars_of(t.as_str());
                let ghost before = buffer@;
                let mut k: usize = 0;
                while k < cs.len()
                    invariant
                        k <= cs@.len(),
                        buffer@ == before + cs@.subrange(0, k as int),
                    decreases cs@.len() - k,
                {
                    buffer.push(cs[k]);
                    proof {
                        assert(cs@.subrange(0, k + 1) =~= cs@.subrange(0, k as int).push(cs@[k as int]));
                    }
                    k = k + 1;
                }
                proof {
                    assert(cs@.subrange(0, cs@.len() as int) =~= cs@);
                }
            },
            TextKey::Other => {},
        }
        i = i + 1;
    }
    proof {
        assert(keys@.subrange(0, keys@.len() as int) =~= keys@);
    }
    finish
}

/// The Unicode `White_Space` characters (what `char::is_whitespace` means).
pub open spec fn is_white(c: char) -> bool {
    ||| '\u{9}' <= c <= '\u{d}'
    ||| c == ' '
    ||| c == '\u{85}'
    ||| c == '\u{a0}'
    ||| c == '\u{1680}'
    ||| '\u{2000}' <= c <= '\u{200a}'
    ||| c == '\u{2028}'
    ||| c == '\u{2029}'
    ||| c == '\u{202f}'
    ||| c == '\u{205f}'
    ||| c == '\u{3000}'
}

/// `s` without its leading and trailing whitespace: the slice `lo..hi`
/// where `lo` is the first non-white character and `hi` one past the last.
pub open spec fn trimmed(s: Seq<char>, r: Seq<char>) -> bool {
    exists|lo: int, hi: int|
        0 <= lo <= hi <= s.len() && r == s.subrange(lo, hi) && (forall|x: int| 0 <= x < lo ==> is_white(
            #[trigger] s[x],
        )) && (forall|x: int| hi <= x < s.len() ==> is_white(#[trigger] s[x])) && (lo < hi ==> !is_white(
            s[lo],
        ) && !is_white(s[hi - 1]))
}

fn white(c: char) -> (r: bool)
    ensures
        r == is_white(c),
{
    ('\u{9}' <= c && c <= '\u{d}') || c == ' ' || c == '\u{85}' || c == '\u{a0}' || c == '\u{1680}'
        || ('\u{2000}' <= c && c <= '\u{200a}') || c == '\u{2028}' || c == '\u{2029}' || c
        == '\u{202f}' || c == '\u{205f}' || c == '\u{3000}'
}

/// The name an `Enter` commits: the buffer trimmed of whitespace, or `None`
/// when nothing else is left (the prior name stays).
pub fn committed_name(buffer: &Vec<char>) -> (name: Option<String>)
    ensures
        match name {
            Some(n) => n@.len() > 0 && trimmed(buffer@, n@),
            None => forall|x: int| 0 <= x < buffer@.len() ==> is_white(#[trigger] buffer@[x]),
        },
{
    let n = buffer.len();
    let mut lo: usize = 0;
    while lo < n && white(buffer[lo])
        invariant
            lo <= n,
            n == buffer@.len(),
            forall|x: int| 0 <= x < lo ==> is_white(#[trigger] buffer@[x]),
        decreases n - lo,
    {
        lo = lo + 1;
    }
    if lo == n {
        return None;
    }
    let mut hi: usize = n;
    while hi > lo && white(buffer[hi - 1])
        invariant
            lo < n,
            lo <= hi <= n,
            n == buffer@.len(),
            !is_white(buffer@[lo as int]),
            forall|x: int| hi <= x < n ==> is_white(#[trigger] buffer@[x]),
        decreases hi,
    {
        hi = hi - 1;
    }
    let mut out: Vec<char> = Vec::new();
    let mut k: usize = lo;
    while k < hi
        invariant
            lo <= k <= hi <= n,
            n == buffer@.len(),
            out@ == buffer@.subrange(lo as int, k as int),
        decreases hi - k,
    {
        out.push(buffer[k]);
        proof {
            assert(buffer@.subrange(lo as int, k + 1) =~= buffer@.subrange(lo as int, k as int).push(
                buffer@[k as int],
            ));
        }
        k = k + 1;
    }
    let s = string_from_chars(&out);
    proof {
        assert(lo < hi);
        assert(trimmed(buffer@, s@)) by {
            assert(s@ == buffer@.subrange(lo as int, hi as int));
        }
    }
    Some(s)
}

} // verus!
