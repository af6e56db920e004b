//! The managed block of the shell profile.
use crate::setup::ports;
use crate::setup::registry;
use crate::setup::report::Platform;
use crate::text;
use vstd::prelude::*;

verus! {

/// The line that opens the managed block.
pub const BEGIN: &'static str = "# >>> llmtrim >>>";

/// The line that closes the managed block.
pub const END: &'static str = "# <<< llmtrim <<<";

/// Which shell dialect a profile uses.
#[derive(Debug, Clone, Copy, PartialEq, Eq, Structural)]
pub enum Syntax {
    Posix,
    PowerShell,
}

/// The lines that stand outside managed blocks, in order, and whether a block is still open after
/// the last line.
pub open spec fn outside(ls: Seq<Seq<char>>) -> (Seq<Seq<char>>, bool)
    decreases ls.len(),
{
    if ls.len() == 0 {
        (Seq::empty(), false)
    } else {
        let (kept, skip) = outside(ls.drop_last());
        let mark = text::trim(ls.last());
        if mark == BEGIN@ {
            (kept, true)
        } else if mark == END@ {
            (kept, false)
        } else if skip {
            (kept, true)
        } else {
            (kept.push(ls.last()), false)
        }
    }
}

/// The lines that stand inside managed blocks, in order, without the markers, and whether a block is
/// still open after the last line.
pub open spec fn inside(ls: Seq<Seq<char>>) -> (Seq<Seq<char>>, bool)
    decreases ls.len(),
{
    if ls.len() == 0 {
        (Seq::empty(), false)
    } else {
        let (held, open) = inside(ls.drop_last());
        let mark = text::trim(ls.last());
        if mark == BEGIN@ {
            (held, true)
        } else if mark == END@ {
            (held, false)
        } else if open {
            (held.push(ls.last()), true)
        } else {
            (held, false)
        }
    }
}

/// The lines one after another, each closed by a line feed.
pub open spec fn unlines(ls: Seq<Seq<char>>) -> Seq<char>
    decreases ls.len(),
{
    if ls.len() == 0 {
        Seq::empty()
    } else {
        unlines(ls.drop_last()) + ls.last().push('\n')
    }
}

/// `s` without its managed blocks and their markers.
pub open spec fn stripped(s: Seq<char>) -> Seq<char> {
    unlines(outside(text::lines(s)).0)
}

/// What the managed blocks of `s` hold.
pub open spec fn managed(s: Seq<char>) -> Seq<char> {
    unlines(inside(text::lines(s)).0)
}

/// The assignments inside the managed block.
pub open spec fn block_body(proxy: Seq<char>, ca: Seq<char>, syntax: Syntax) -> Seq<char> {
    match syntax {
        Syntax::Posix => "export HTTPS_PROXY=\""@ + proxy + "\"\nexport HTTP_PROXY=\""@ + proxy
            + "\"\nexport NODE_EXTRA_CA_CERTS=\""@ + ca + "\"\n"@,
        Syntax::PowerShell => "$env:HTTPS_PROXY = \""@ + proxy + "\"\n$env:HTTP_PROXY = \""@ + proxy
            + "\"\n$env:NODE_EXTRA_CA_CERTS = \""@ + ca + "\"\n"@,
    }
}

/// The managed block: the assignments between the two markers.
pub open spec fn block_view(proxy: Seq<char>, ca: Seq<char>, syntax: Syntax) -> Seq<char> {
    BEGIN@ + "\n"@ + block_body(proxy, ca, syntax) + END@ + "\n"@
}

/// A profile whose managed block wires `proxy` and `ca`: what stood outside the managed blocks of
/// `existing`, then the block.
pub open spec fn with_block_view(
    existing: Seq<char>,
    proxy: Seq<char>,
    ca: Seq<char>,
    syntax: Syntax,
) -> Seq<char> {
    stripped(existing) + block_view(proxy, ca, syntax)
}

/// Removes the managed blocks, markers and all.
pub fn strip_block(s: &str) -> (r: String)
    ensures
        r@ == stripped(s@),
{
    let ls = text::lines_of(s);
    let ghost all = text::texts(ls@);
    let mut out = String::new();
    let mut skip = false;
    let mut i: usize = 0;
    assert(all.take(0) =~= Seq::<Seq<char>>::empty());
    while i < ls.len()
        invariant
            i <= ls@.len(),
            all == text::texts(ls@),
            out@ == unlines(outside(all.take(i as int)).0),
            skip == outside(all.take(i as int)).1,
        decreases ls@.len() - i,
    {
        let line = ls[i].as_str();
        let mark = text::trimmed(line);
        assert(all.take(i + 1).drop_last() =~= all.take(i as int));
        assert(all.take(i + 1).last() == line@);
        if text::same(mark.as_str(), BEGIN) {
            skip = true;
        } else if text::same(mark.as_str(), END) {
            skip = false;
        } else if !skip {
            let ghost kept = outside(all.take(i as int)).0;
            assert(kept.push(line@).drop_last() =~= kept);
            out.append(line);
            out.push('\n');
            assert(out@ =~= unlines(kept.push(line@)));
        }
        i = i + 1;
    }
    assert(all.take(all.len() as int) =~= all);
    out
}

/// The managed block in the profile's own syntax.
pub fn env_block(proxy: &str, ca: &str, syntax: Syntax) -> (r: String)
    ensures
        r@ == block_view(proxy@, ca@, syntax),
{
    let mut out = BEGIN.to_owned();
    out.append("\n");
    match syntax {
        Syntax::Posix => {
            out.append("export HTTPS_PROXY=\"");
            out.append(proxy);
            out.append("\"\nexport HTTP_PROXY=\"");
            out.append(proxy);
            out.append("\"\nexport NODE_EXTRA_CA_CERTS=\"");
        },
        Syntax::PowerShell => {
            out.append("$env:HTTPS_PROXY = \"");
            out.append(proxy);
            out.append("\"\n$env:HTTP_PROXY = \"");
            out.append(proxy);
            out.append("\"\n$env:NODE_EXTRA_CA_CERTS = \"");
        },
    }
    out.append(ca);
    out.append("\"\n");
    out.append(END);
    out.append("\n");
    assert(out@ =~= block_view(proxy@, ca@, syntax));
    out
}

/// What to write to a profile that holds `existing` so that its one managed block wires `proxy` and
/// `ca`.
pub fn with_block(existing: &str, proxy: &str, ca: &str, syntax: Syntax) -> (r: String)
    ensures
        r@ == with_block_view(existing@, proxy@, ca@, syntax),
{
    let mut out = strip_block(existing);
    out.append(env_block(proxy, ca, syntax).as_str());
    out
}

/// Whether a profile holds a managed block.
pub fn has_block(s: &str) -> (r: bool)
    ensures
        r == text::contains(s@, BEGIN@),
{
    text::has_text(s, BEGIN)
}

/// What to write to a profile that holds `existing` so that no managed block is left; `None` when
/// there is none to remove.
pub fn without_block(existing: &str) -> (r: Option<String>)
    ensures
        match r {
            Some(s) => text::contains(existing@, BEGIN@) && s@ == stripped(existing@),
            None => !text::contains(existing@, BEGIN@),
        },
{
    if has_block(existing) {
        Some(strip_block(existing))
    } else {
        None
    }
}

/// What the managed blocks of a profile hold.
fn managed_lines(s: &str) -> (r: String)
    ensures
        r@ == managed(s@),
{
    let ls = text::lines_of(s);
    let ghost all = text::texts(ls@);
    let mut out = String::new();
    let mut open = false;
    let mut i: usize = 0;
    assert(all.take(0) =~= Seq::<Seq<char>>::empty());
    while i < ls.len()
        invariant
            i <= ls@.len(),
            all == text::texts(ls@),
            out@ == unlines(inside(all.take(i as int)).0),
            open == inside(all.take(i as int)).1,
        decreases ls@.len() - i,
    {
        let line = ls[i].as_str();
        let mark = text::trimmed(line);
        assert(all.take(i + 1).drop_last() =~= all.take(i as int));
        assert(all.take(i + 1).last() == line@);
        if text::same(mark.as_str(), BEGIN) {
            open = true;
        } else if text::same(mark.as_str(), END) {
            open = false;
        } else if open {
            let ghost held = inside(all.take(i as int)).0;
            assert(held.push(line@).drop_last() =~= held);
            out.append(line);
            out.push('\n');
            assert(out@ =~= unlines(held) + line@.push('\n'));
        }
        i = i + 1;
    }
    assert(all.take(all.len() as int) =~= all);
    out
}

/// The port that a profile wires: the number right after the first `127.0.0.1:` of its managed blocks.
/// The user's own lines do not count.
pub fn configured_port(profile: &str) -> (r: Option<u16>)
    ensures
        r == ports::wired_port(managed(profile@)),
{
    let block = managed_lines(profile);
    ports::parse_proxy_port(block.as_str())
}

/// The start-up file, under the home directory, of the shell whose path is `shell`.
pub open spec fn profile_file_view(shell: Seq<char>) -> Seq<char> {
    if text::ends_with(shell, "zsh"@) {
        ".zshrc"@
    } else if text::ends_with(shell, "bash"@) {
        ".bashrc"@
    } else {
        ".profile"@
    }
}

/// The start-up file, under the home directory, of the shell whose path is `shell`.
pub fn profile_file(shell: &str) -> (r: &'static str)
    ensures
        r@ == profile_file_view(shell@),
{
    if text::has_suffix(shell, "zsh") {
        ".zshrc"
    } else if text::has_suffix(shell, "bash") {
        ".bashrc"
    } else {
        ".profile"
    }
}

/// The parts of the path of the shell's start-up file, where a home directory is known.
pub open spec fn profile_target_view(home: Option<Seq<char>>, shell: Seq<char>) -> Option<
    Seq<Seq<char>>,
> {
    match home {
        Some(h) => Some(seq![h, profile_file_view(shell)]),
        None => None,
    }
}

/// The parts of the path of the start-up file of the shell whose path is `shell`, to be joined in
/// order; `None` where no home directory is known.
pub fn profile_target(home: Option<&str>, shell: &str) -> (r: Option<Vec<String>>)
    ensures
        match r {
            Some(parts) => profile_target_view(text::given(home), shell@) == Some(
                text::texts(parts@),
            ),
            None => home is None,
        },
{
    match home {
        Some(h) => {
            let mut parts: Vec<String> = Vec::new();
            parts.push(h.to_owned());
            parts.push(profile_file(shell).to_owned());
            assert(text::texts(parts@) =~= profile_target_view(Some(h@), shell@)->0);
            Some(parts)
        },
        None => None,
    }
}

/// The parts of the path of the PowerShell profile: what PowerShell says, where it says anything, else
/// the conventional place under the user's directory.
pub open spec fn powershell_profile_view(
    said: Option<Seq<char>>,
    user_profile: Option<Seq<char>>,
) -> Option<Seq<Seq<char>>> {
    if said is Some && text::trim(said->0).len() > 0 {
        Some(seq![text::trim(said->0)])
    } else if user_profile is Some {
        Some(seq![user_profile->0, "Documents"@, "PowerShell"@, "profile.ps1"@])
    } else {
        None
    }
}

/// The parts of the path of the PowerShell profile, to be joined in order, given what PowerShell
/// printed, where it could be asked, and the environment's `USERPROFILE`.
pub fn powershell_profile(said: Option<&str>, user_profile: Option<&str>) -> (r: Option<Vec<String>>)
    ensures
        match r {
            Some(parts) => powershell_profile_view(text::given(said), text::given(user_profile))
                == Some(text::texts(parts@)),
            None => powershell_profile_view(text::given(said), text::given(user_profile)) is None,
        },
{
    let mut parts: Vec<String> = Vec::new();
    let ghost want = powershell_profile_view(text::given(said), text::given(user_profile));
    match said {
        Some(s) => {
            let path = text::trimmed(s);
            if !path.as_str().is_empty() {
                parts.push(path);
                assert(text::texts(parts@) =~= want->0);
                return Some(parts);
            }
        },
        None => {},
    }
    match user_profile {
        Some(u) => {
            parts.push(u.to_owned());
            parts.push("Documents".to_owned());
            parts.push("PowerShell".to_owned());
            parts.push("profile.ps1".to_owned());
            assert(text::texts(parts@) =~= want->0);
            Some(parts)
        },
        None => None,
    }
}

/// Whether what is wired is still there: on Windows the value of `HTTPS_PROXY` points here, elsewhere
/// the profile holds a managed block.
pub open spec fn still_wired(wired: Option<Seq<char>>, platform: Platform) -> bool {
    if platform == Platform::Windows {
        registry::points_here(wired)
    } else {
        wired is Some && text::contains(wired->0, BEGIN@)
    }
}

/// Whether the interceptor is still wired up, given the user's `HTTPS_PROXY` on Windows and the text
/// of the shell profile elsewhere, where it could be read.
pub fn profile_has_block(wired: Option<&str>, platform: Platform) -> (r: bool)
    ensures
        r == still_wired(text::given(wired), platform),
{
    match platform {
        Platform::Windows => registry::user_env_has_proxy(wired),
        _ => match wired {
            Some(s) => has_block(s),
            None => false,
        },
    }
}

} // verus!
