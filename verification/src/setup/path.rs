//! The installer's entry on the user's `PATH`.
use crate::text;
use vstd::prelude::*;

verus! {

pub open spec fn ascii_lower_char(c: char) -> char {
    if 'A' <= c <= 'Z' {
        (c as int + 32) as char
    } else {
        c
    }
}

/// `s` with its ASCII letters in lower case.
pub open spec fn ascii_lower(s: Seq<char>) -> Seq<char> {
    s.map_values(|c: char| ascii_lower_char(c))
}

/// `s` without the slashes and backslashes at its end.
pub open spec fn trim_slashes(s: Seq<char>) -> Seq<char>
    decreases s.len(),
{
    if s.len() > 0 && (s.last() == '\\' || s.last() == '/') {
        trim_slashes(s.drop_last())
    } else {
        s
    }
}

/// A directory as it is compared: without white space around it, without slashes at its end, and
/// with no difference of case.
pub open spec fn normal(s: Seq<char>) -> Seq<char> {
    ascii_lower(trim_slashes(text::trim(s)))
}

/// The segments that do not name `dir`, in order.
pub open spec fn other_segments(segs: Seq<Seq<char>>, dir: Seq<char>) -> Seq<Seq<char>>
    decreases segs.len(),
{
    if segs.len() == 0 {
        Seq::empty()
    } else {
        let before = other_segments(segs.drop_last(), dir);
        if normal(segs.last()) == normal(dir) {
            before
        } else {
            before.push(segs.last())
        }
    }
}

/// A `;`-separated `PATH` without the entries that name `dir`.
pub open spec fn path_without(path: Seq<char>, dir: Seq<char>) -> Seq<char> {
    text::join(other_segments(text::split(path, ';'), dir), ";"@)
}

/// A directory as it is compared.
fn normalize(s: &str) -> (r: String)
    ensures
        r@ == normal(s@),
{
    let t = text::trimmed(s);
    let v = text::chars_of(t.as_str());
    let mut end: usize = v.len();
    assert(v@.take(v@.len() as int) =~= v@);
    while end > 0 && (v[end - 1] == '\\' || v[end - 1] == '/')
        invariant
            end <= v@.len(),
            trim_slashes(v@) == trim_slashes(v@.take(end as int)),
        decreases end,
    {
        assert(v@.take(end as int).drop_last() =~= v@.take(end - 1));
        end = end - 1;
    }
    let ghost body = v@.take(end as int);
    assert(trim_slashes(v@) == body);
    let mut out = String::new();
    let mut i: usize = 0;
    while i < end
        invariant
            i <= end <= v@.len(),
            body == v@.take(end as int),
            out@ == ascii_lower(body).take(i as int),
        decreases end - i,
    {
        let c = v[i];
        let l: char = if c >= 'A' && c <= 'Z' {
            (c as u8 + 32u8) as char
        } else {
            c
        };
        out.push(l);
        assert(ascii_lower(body).take(i + 1) =~= ascii_lower(body).take(i as int).push(
            ascii_lower_char(c),
        ));
        i = i + 1;
    }
    assert(ascii_lower(body).take(end as int) =~= ascii_lower(body));
    out
}

/// Removes every occurrence of `dir` from a `;`-separated `PATH`, keeping the other entries and
/// their order.
pub fn strip_path_entry(path: &str, dir: &str) -> (r: String)
    ensures
        r@ == path_without(path@, dir@),
{
    let target = normalize(dir);
    let segs = text::split_on(path, ';');
    let ghost all = text::texts(segs@);
    let mut kept: Vec<String> = Vec::new();
    let mut i: usize = 0;
    assert(all.take(0) =~= Seq::<Seq<char>>::empty());
    assert(text::texts(kept@) =~= Seq::<Seq<char>>::empty());
    while i < segs.len()
        invariant
            i <= segs@.len(),
            all == text::texts(segs@),
            target@ == normal(dir@),
            text::texts(kept@) == other_segments(all.take(i as int), dir@),
        decreases segs@.len() - i,
    {
        assert(all.take(i + 1).drop_last() =~= all.take(i as int));
        let n = normalize(segs[i].as_str());
        if !text::same(n.as_str(), target.as_str()) {
            let ghost before = text::texts(kept@);
            kept.push(segs[i].clone());
            assert(text::texts(kept@) =~= before.push(segs@[i as int]@));
        }
        i = i + 1;
    }
    assert(all.take(all.len() as int) =~= all);
    text::join_with(&kept, ";")
}

/// The new value of a `PATH` that names `dir`; `None` when there is nothing to remove.
pub fn path_update(path: &str, dir: &str) -> (r: Option<String>)
    ensures
        match r {
            Some(s) => path_without(path@, dir@) != path@ && s@ == path_without(path@, dir@),
            None => path_without(path@, dir@) == path@,
        },
{
    let s = strip_path_entry(path, dir);
    if text::same(s.as_str(), path) {
        None
    } else {
        Some(s)
    }
}

// ---------------------------------------------------------------------------------------------
// The on-disk form of a registry string
// ---------------------------------------------------------------------------------------------

/// The UTF-16 code units of one character: one below U+10000, else a surrogate pair.
pub open spec fn utf16_units(c: char) -> Seq<u16> {
    let n = c as int;
    if n < 0x10000 {
        seq![n as u16]
    } else {
        seq![(0xd800 + (n - 0x10000) / 0x400) as u16, (0xdc00 + (n - 0x10000) % 0x400) as u16]
    }
}

/// A code unit as two bytes, the low one first.
pub open spec fn le_bytes(u: u16) -> Seq<u8> {
    seq![(u % 256) as u8, (u / 256) as u8]
}

/// The bytes of the code units, each with its low byte first.
pub open spec fn units_bytes(us: Seq<u16>) -> Seq<u8>
    decreases us.len(),
{
    if us.len() == 0 {
        Seq::empty()
    } else {
        units_bytes(us.drop_last()) + le_bytes(us.last())
    }
}

/// The UTF-16 code units of a text.
pub open spec fn utf16(s: Seq<char>) -> Seq<u16>
    decreases s.len(),
{
    if s.len() == 0 {
        Seq::empty()
    } else {
        utf16(s.drop_last()) + utf16_units(s.last())
    }
}

fn push_unit(out: &mut Vec<u8>, u: u16)
    ensures
        final(out)@ == old(out)@ + le_bytes(u),
{
    out.push((u % 256) as u8);
    out.push((u / 256) as u8);
    assert(out@ =~= old(out)@ + le_bytes(u));
}

proof fn lemma_units_bytes_push(us: Seq<u16>, u: u16)
    ensures
        units_bytes(us.push(u)) == units_bytes(us) + le_bytes(u),
{
    assert(us.push(u).drop_last() =~= us);
}

/// Appends the code units of one character.
fn push_char(out: &mut Vec<u8>, c: char, Ghost(before): Ghost<Seq<u16>>)
    requires
        old(out)@ == units_bytes(before),
    ensures
        final(out)@ == units_bytes(before + utf16_units(c)),
{
    let n: u32 = c as u32;
    if n < 0x10000 {
        proof {
            lemma_units_bytes_push(before, n as u16);
            assert(before + utf16_units(c) =~= before.push(n as u16));
        }
        push_unit(out, n as u16);
    } else {
        let hi: u16 = (0xd800 + (n - 0x10000) / 0x400) as u16;
        let lo: u16 = (0xdc00 + (n - 0x10000) % 0x400) as u16;
        proof {
            lemma_units_bytes_push(before, hi);
            lemma_units_bytes_push(before.push(hi), lo);
            assert(before + utf16_units(c) =~= before.push(hi).push(lo));
        }
        push_unit(out, hi);
        push_unit(out, lo);
    }
}

/// UTF-16 bytes with the low byte first and a NUL at the end: how the registry keeps a string.
pub fn encode_utf16_nul(s: &str) -> (r: Vec<u8>)
    ensures
        r@ == units_bytes(utf16(s@).push(0)),
{
    let v = text::chars_of(s);
    let mut out: Vec<u8> = Vec::new();
    let mut i: usize = 0;
    assert(v@.take(0) =~= Seq::<char>::empty());
    while i < v.len()
        invariant
            i <= v@.len(),
            out@ == units_bytes(utf16(v@.take(i as int))),
        decreases v@.len() - i,
    {
        assert(v@.take(i + 1).drop_last() =~= v@.take(i as int));
        push_char(&mut out, v[i], Ghost(utf16(v@.take(i as int))));
        i = i + 1;
    }
    assert(v@.take(v@.len() as int) =~= v@);
    proof {
        lemma_units_bytes_push(utf16(s@), 0);
    }
    push_unit(&mut out, 0);
    out
}

/// What kind of value the registry keeps under a name.
#[derive(Debug, Clone, Copy, PartialEq, Eq, Structural)]
pub enum ValueKind {
    /// A string.
    Text,
    /// A string with references to variables in it.
    Expandable,
    /// Anything else.
    Other,
}

/// The bytes to write for a `PATH` value, which keeps its kind, so that the installer's directory is
/// out of it; `None` where the value stays as it is. Nothing but a string is touched.
pub open spec fn new_path_bytes(kind: ValueKind, path: Seq<char>, dir: Seq<char>) -> Option<
    Seq<u8>,
> {
    if kind == ValueKind::Other || path_without(path, dir) == path {
        None
    } else {
        Some(units_bytes(utf16(path_without(path, dir)).push(0)))
    }
}

/// The bytes to write for a `PATH` value of this kind so that the installer's directory is out of it;
/// `None` where there is no such directory, or the value stays as it is.
pub fn remove_bin_dir_from_path(kind: ValueKind, path: &str, bin_dir: Option<&str>) -> (r: Option<
    Vec<u8>,
>)
    ensures
        match (bin_dir, r) {
            (None, _) => r is None,
            (Some(dir), Some(bytes)) => new_path_bytes(kind, path@, dir@) == Some(bytes@),
            (Some(dir), None) => new_path_bytes(kind, path@, dir@) is None,
        },
{
    let dir = match bin_dir {
        Some(d) => d,
        None => {
            return None;
        },
    };
    match kind {
        ValueKind::Other => None,
        _ => match path_update(path, dir) {
            Some(s) => Some(encode_utf16_nul(s.as_str())),
            None => None,
        },
    }
}

/// The command that waits for the program to end and then removes its directory.
pub open spec fn removal_script_view(dir: Seq<char>) -> Seq<char> {
    "ping 127.0.0.1 -n 3 >nul & rmdir /s /q \""@ + dir + "\""@
}

/// The command that waits for the program to end and then removes its directory.
pub fn removal_script(dir: &str) -> (r: String)
    ensures
        r@ == removal_script_view(dir@),
{
    let mut out = "ping 127.0.0.1 -n 3 >nul & rmdir /s /q \"".to_owned();
    out.append(dir);
    out.append("\"");
    out
}

} // verus!
