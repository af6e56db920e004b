//! What holds of the pieces that wire the interceptor in: ports, variables, directories and the
//! managed block.
use crate::setup::laws;
use crate::setup::path;
use crate::setup::path::ValueKind;
use crate::setup::ports;
use crate::setup::profile;
use crate::setup::profile::Syntax;
use crate::setup::registry;
use crate::setup::registry::Deletion;
use crate::setup::report::Platform;
use crate::text;
use crate::text_laws;
use vstd::prelude::*;

verus! {

// ---------------------------------------------------------------------------------------------
// Ports
// ---------------------------------------------------------------------------------------------

/// The port that the user asks for goes before any other, that of a live interceptor before the one
/// that is wired, and that one before a scan.
pub proof fn law_the_request_for_a_port_wins(p: u16, running: Option<u16>, configured: Option<u16>)
    ensures
        ports::pinned(Some(p), running, configured) == Some(p),
        ports::pinned(None, Some(p), configured) == Some(p),
        ports::pinned(None, None, configured) == configured,
{
}

/// A scan tries as many ports past the first as it is told to, as far as there are ports.
pub proof fn law_a_scan_ends_in_range(start: u16, span: u16)
    ensures
        start <= ports::scan_end(start, span) <= 0xffff,
        ports::scan_end(start, span) - start <= span,
        start + span <= 0xffff ==> ports::scan_end(start, span) - start == span,
        start + span > 0xffff ==> ports::scan_end(start, span) == 0xffff,
{
}

/// Where no port is pinned, the ports from 8787 to 8851 are tried, and no other.
pub proof fn law_the_scan_starts_at_the_default(p: u16)
    ensures
        ports::DEFAULT_PORT <= p <= ports::scan_end(ports::DEFAULT_PORT, ports::SCAN_SPAN)
            <==> 8787 <= p <= 8787 + 64,
{
}

/// Where no port is free, the error says between which ones it was looked for.
pub proof fn law_the_error_names_the_range(e: ports::NoFreePort)
    ensures
        e.text() == "no free port in "@ + (text::decimal(e.start as nat) + ("..="@ + text::decimal(
            e.end as nat,
        ))),
{
    let a = "no free port in "@;
    let s = text::decimal(e.start as nat);
    let n = text::decimal(e.end as nat);
    assert(a + s + "..="@ + n =~= a + (s + ("..="@ + n)));
}

/// The number right behind the first local address of a text is its port, whatever stands around it;
/// a number that is no port, and a missing one, are none.
pub proof fn law_the_port_stands_behind_the_address(
    head: Seq<char>,
    digits: Seq<char>,
    rest: Seq<char>,
)
    requires
        text::all_digits(digits),
        rest.len() == 0 || !text::is_digit(rest[0]) && rest[0] != '.',
        forall|j: int|
            0 <= j < head.len() ==> !text::occurs_at(
                head + "127.0.0.1:"@ + digits + rest,
                "127.0.0.1:"@,
                j,
            ),
        digits.len() > 0 || !text::occurs_at(rest, "127.0.0.1:"@, 0),
    ensures
        ({
            let s = head + "127.0.0.1:"@ + digits + rest;
            let n = text::decimal_value(digits);
            &&& digits.len() > 0 && n <= 0xffff ==> ports::wired_port(s) == Some(n as u16)
            &&& digits.len() == 0 || n > 0xffff ==> ports::wired_port(s) is None
        }),
{
    let pat = "127.0.0.1:"@;
    let s = head + pat + digits + rest;
    laws::lemma_address();
    let at = head.len() as int;
    assert(s.subrange(at, at + pat.len()) =~= pat);
    laws::lemma_first_is(s, pat, 0, at);
    let start = at + pat.len();
    let end = start + digits.len();
    assert(s.subrange(start, end) =~= digits);
    assert forall|j: int| start <= j < end implies !text::occurs_at(s, pat, j) by {
        if text::occurs_at(s, pat, j) {
            let here = s.subrange(j, j + pat.len());
            assert(here[0] == s[j] && here[1] == s[j + 1] && here[2] == s[j + 2] && here[3] == s[j
                + 3]);
            if j + 3 < end {
                assert(s[j + 3] == digits[j + 3 - start]);
                assert(text::is_digit(digits[j + 3 - start]));
            } else {
                assert(end < s.len());
                assert(s[end] == rest[0]);
                assert(here[end - j] == s[end]);
            }
        }
    }
    text::lemma_first_at(s, pat, start);
    let after = ports::after_first(s, pat)->0;
    let stop = match text::first_at(s, pat, start) {
        Some(j) => j,
        None => s.len() as int,
    };
    assert(stop >= end);
    assert(after =~= s.subrange(start, stop));
    let tail = s.subrange(end, stop);
    assert(after =~= digits + tail);
    if tail.len() > 0 {
        assert(tail[0] == rest[0]);
    }
    laws::lemma_digit_run(digits, tail);
    assert(after.take(digits.len() as int) =~= digits);
}

/// A text without a local address wires no port.
pub proof fn law_no_address_no_port(s: Seq<char>)
    requires
        !text::contains(s, "127.0.0.1:"@),
    ensures
        ports::wired_port(s) is None,
{
    text::lemma_first_at(s, "127.0.0.1:"@, 0);
}

// ---------------------------------------------------------------------------------------------
// Variables
// ---------------------------------------------------------------------------------------------

/// Both proxies point to the interceptor and the CA is trusted; nothing else is set.
pub proof fn law_both_proxies_point_here(proxy: Seq<char>, ca: Seq<char>)
    ensures
        registry::managed_values(proxy, ca).len() == 3,
        registry::managed_values(proxy, ca).contains(("HTTPS_PROXY"@, proxy)),
        registry::managed_values(proxy, ca).contains(("HTTP_PROXY"@, proxy)),
        registry::managed_values(proxy, ca).contains(("NODE_EXTRA_CA_CERTS"@, ca)),
{
    let v = registry::managed_values(proxy, ca);
    assert(v[0] == ("HTTPS_PROXY"@, proxy));
    assert(v[1] == ("HTTP_PROXY"@, proxy));
    assert(v[2] == ("NODE_EXTRA_CA_CERTS"@, ca));
}

/// A deletion failed, and none before it did.
pub open spec fn fails_first(ds: Seq<Deletion>, i: int) -> bool {
    &&& 0 <= i < ds.len()
    &&& ds[i] == Deletion::Failed
    &&& forall|j: int| 0 <= j < i ==> #[trigger] ds[j] != Deletion::Failed
}

/// The first deletion that fails is the one that is told of. Where none fails, something was removed if
/// at least one value was there.
pub proof fn law_the_first_failure_is_told(ds: Seq<Deletion>, i: int)
    ensures
        fails_first(ds, i) ==> registry::cleared(ds) == Err::<bool, nat>(i as nat),
        (forall|j: int| 0 <= j < ds.len() ==> #[trigger] ds[j] != Deletion::Failed)
            ==> registry::cleared(ds) == Ok::<bool, nat>(ds.contains(Deletion::Deleted)),
    decreases ds.len(),
{
    if ds.len() > 0 {
        let most = ds.drop_last();
        law_the_first_failure_is_told(most, i);
        assert(forall|j: int| 0 <= j < most.len() ==> #[trigger] most[j] == ds[j]);
        if fails_first(ds, i) {
            if i < most.len() {
                assert(most[i] == ds[i]);
                assert(fails_first(most, i));
            } else {
                assert(forall|j: int| 0 <= j < most.len() ==> #[trigger] most[j]
                    != Deletion::Failed);
            }
        }
        if forall|j: int| 0 <= j < ds.len() ==> #[trigger] ds[j] != Deletion::Failed {
            assert(ds[ds.len() - 1] != Deletion::Failed);
            assert(forall|j: int| 0 <= j < most.len() ==> #[trigger] most[j] != Deletion::Failed);
            if most.contains(Deletion::Deleted) {
                let j = choose|j: int| 0 <= j < most.len() && most[j] == Deletion::Deleted;
                assert(ds[j] == Deletion::Deleted);
            }
            if ds.contains(Deletion::Deleted) && ds.last() != Deletion::Deleted {
                let j = choose|j: int| 0 <= j < ds.len() && ds[j] == Deletion::Deleted;
                assert(most[j] == Deletion::Deleted);
            }
            if ds.last() == Deletion::Deleted {
                assert(ds[ds.len() - 1] == Deletion::Deleted);
            }
        }
    }
}

/// A value that holds the local address points here, and no other does.
pub proof fn law_only_the_local_address_points_here(a: Seq<char>, b: Seq<char>, other: Seq<char>)
    ensures
        registry::points_here(Some(a + "127.0.0.1"@ + b)),
        !text::contains(other, "127.0.0.1"@) ==> !registry::points_here(Some(other)),
        !registry::points_here(None),
{
    let s = a + "127.0.0.1"@ + b;
    let n = a.len() as int;
    assert(s.subrange(n, n + "127.0.0.1"@.len()) =~= "127.0.0.1"@);
    assert(text::occurs_at(s, "127.0.0.1"@, n));
}

/// On Windows the interceptor is wired where the variable points here; elsewhere where the profile
/// holds the opening marker; and nowhere where nothing can be read.
pub proof fn law_wiring_is_seen_where_it_is(value: Seq<char>, platform: Platform)
    ensures
        !profile::still_wired(None, platform),
        platform == Platform::Windows ==> profile::still_wired(Some(value), platform)
            == text::contains(value, "127.0.0.1"@),
        platform != Platform::Windows ==> profile::still_wired(Some(value), platform)
            == text::contains(value, profile::BEGIN@),
{
}

// ---------------------------------------------------------------------------------------------
// Directories
// ---------------------------------------------------------------------------------------------

/// A letter is compared by its lower case, anything else by itself.
pub proof fn law_letters_are_compared_without_case(c: char)
    ensures
        'a' <= c <= 'z' ==> path::ascii_lower_char(c) == c,
        !('A' <= c <= 'Z') ==> path::ascii_lower_char(c) == c,
        'A' <= c <= 'Z' ==> 'a' <= path::ascii_lower_char(c) <= 'z' && path::ascii_lower_char(
            c,
        ) as int - 'a' as int == c as int - 'A' as int,
        path::ascii_lower_char(path::ascii_lower_char(c)) == path::ascii_lower_char(c),
{
}

/// Directories are compared without the slashes at their end and without regard to case; what stands
/// before those slashes, and how long it is, counts.
pub proof fn law_directories_are_compared_by_name(s: Seq<char>, c: char)
    requires
        c == '\\' || c == '/',
        s == text::trim(s),
    ensures
        path::trim_slashes(s.push(c)) == path::trim_slashes(s),
        s.len() > 0 && s.last() != '\\' && s.last() != '/' ==> path::trim_slashes(s) == s
            && path::normal(s).len() == s.len() && forall|i: int|
            0 <= i < s.len() ==> #[trigger] path::normal(s)[i] == path::ascii_lower_char(s[i]),
{
    assert(s.push(c).drop_last() =~= s);
}

/// White space around a directory does not count.
pub proof fn law_white_space_around_a_directory_does_not_count(s: Seq<char>)
    ensures
        path::normal(s) == path::normal(text::trim(s)),
{
    lemma_trim_twice(s);
}

proof fn lemma_trim_twice(s: Seq<char>)
    ensures
        text::trim(text::trim(s)) == text::trim(s),
{
    let b = text::trim_start(s);
    let t = text::trim(s);
    text_laws::law_trimming_takes_white_space(s);
    text_laws::law_trimming_takes_white_space(b);
    if t.len() > 0 {
        assert(t[0] == b[0]);
        assert(text::trim_start(t) == t);
    }
}

/// Whether an entry stays is its own affair: the entries that stay of two lists are those of the first
/// and then those of the second; one entry goes exactly where it names the directory.
pub proof fn law_entries_stay_one_by_one(
    a: Seq<Seq<char>>,
    b: Seq<Seq<char>>,
    dir: Seq<char>,
    seg: Seq<char>,
)
    ensures
        path::other_segments(a + b, dir) == path::other_segments(a, dir) + path::other_segments(
            b,
            dir,
        ),
        path::normal(seg) == path::normal(dir) ==> path::other_segments(seq![seg], dir)
            == Seq::<Seq<char>>::empty(),
        path::normal(seg) != path::normal(dir) ==> path::other_segments(seq![seg], dir)
            == seq![seg],
    decreases b.len(),
{
    let none = Seq::<Seq<char>>::empty();
    assert(seq![seg].drop_last() =~= none);
    assert(path::other_segments(none, dir) =~= none);
    assert(none.push(seg) =~= seq![seg]);
    if b.len() == 0 {
        assert(a + b =~= a);
        assert(path::other_segments(a, dir) + path::other_segments(b, dir) =~= path::other_segments(
            a,
            dir,
        ));
    } else {
        law_entries_stay_one_by_one(a, b.drop_last(), dir, seg);
        assert((a + b).drop_last() =~= a + b.drop_last());
        let x = path::other_segments(a, dir);
        let y = path::other_segments(b.drop_last(), dir);
        assert((x + y).push(b.last()) =~= x + y.push(b.last()));
    }
}

/// The new `PATH` is the old one without the entries that name the directory, the others joined again
/// in their order.
pub proof fn law_the_path_is_what_is_left(whole: Seq<char>, dir: Seq<char>)
    ensures
        path::path_without(whole, dir) == text::join(
            path::other_segments(text::split(whole, ';'), dir),
            seq![';'],
        ),
        text::join(text::split(whole, ';'), seq![';']) == whole,
        (forall|i: int|
            0 <= i < text::split(whole, ';').len() ==> path::normal(
                #[trigger] text::split(whole, ';')[i],
            ) != path::normal(dir)) ==> path::path_without(whole, dir) == whole,
{
    reveal_strlit(";");
    assert(";"@ =~= seq![';']);
    text_laws::law_pieces_join_to_the_text(whole, ';');
    if forall|i: int|
        0 <= i < text::split(whole, ';').len() ==> path::normal(
            #[trigger] text::split(whole, ';')[i],
        ) != path::normal(dir) {
        lemma_all_stay(text::split(whole, ';'), dir);
    }
}

proof fn lemma_all_stay(segs: Seq<Seq<char>>, dir: Seq<char>)
    requires
        forall|i: int|
            0 <= i < segs.len() ==> path::normal(#[trigger] segs[i]) != path::normal(dir),
    ensures
        path::other_segments(segs, dir) == segs,
    decreases segs.len(),
{
    if segs.len() > 0 {
        let most = segs.drop_last();
        assert forall|i: int| 0 <= i < most.len() implies path::normal(#[trigger] most[i])
            != path::normal(dir) by {
            assert(most[i] == segs[i]);
        }
        lemma_all_stay(most, dir);
        assert(segs.last() == segs[segs.len() - 1]);
        assert(most.push(segs.last()) =~= segs);
    } else {
        assert(path::other_segments(segs, dir) =~= segs);
    }
}

/// A string is kept as the code units of its characters, one after another: one unit for a character
/// that fits, else a high and a low surrogate that give the character back.
pub proof fn law_code_units_give_the_text_back(a: Seq<char>, b: Seq<char>, c: char)
    ensures
        path::utf16(a + b) == path::utf16(a) + path::utf16(b),
        path::utf16(seq![c]) == path::utf16_units(c),
        ({
            let u = path::utf16_units(c);
            &&& c as int <= 0xffff ==> u.len() == 1 && u[0] as int == c as int
            &&& c as int > 0xffff ==> u.len() == 2 && 0xd800 <= u[0] < 0xdc00 && 0xdc00 <= u[1]
                < 0xe000 && 0x10000 + (u[0] - 0xd800) * 0x400 + (u[1] - 0xdc00) == c as int
        }),
    decreases b.len(),
{
    assert(seq![c].drop_last() =~= Seq::<char>::empty());
    assert(path::utf16(Seq::<char>::empty()) =~= Seq::<u16>::empty());
    assert(path::utf16(seq![c]) =~= path::utf16_units(c));
    if b.len() == 0 {
        assert(a + b =~= a);
        assert(path::utf16(a) + path::utf16(b) =~= path::utf16(a));
    } else {
        law_code_units_give_the_text_back(a, b.drop_last(), c);
        assert((a + b).drop_last() =~= a + b.drop_last());
        assert(path::utf16(a) + path::utf16(b.drop_last()) + path::utf16_units(b.last())
            =~= path::utf16(a) + (path::utf16(b.drop_last()) + path::utf16_units(b.last())));
    }
}

/// A code unit is two bytes, the low one first, in the place of the unit.
pub proof fn law_bytes_give_the_units_back(us: Seq<u16>, i: int)
    ensures
        path::units_bytes(us).len() == 2 * us.len(),
        0 <= i < us.len() ==> path::units_bytes(us)[2 * i] as int + 256 * path::units_bytes(us)[2 * i
            + 1] as int == us[i] as int,
    decreases us.len(),
{
    if us.len() > 0 {
        let most = us.drop_last();
        law_bytes_give_the_units_back(most, i);
        let front = path::units_bytes(most);
        let all = path::units_bytes(us);
        if 0 <= i < most.len() {
            assert(all[2 * i] == front[2 * i]);
            assert(all[2 * i + 1] == front[2 * i + 1]);
        } else if i == most.len() {
            assert(all[2 * i] == path::le_bytes(us.last())[0]);
            assert(all[2 * i + 1] == path::le_bytes(us.last())[1]);
        }
    }
}

/// A `PATH` is written only where it is a string and the directory was in it; what is written is the
/// rest of it, and a zero unit.
pub proof fn law_only_a_changed_path_is_written(kind: ValueKind, whole: Seq<char>, dir: Seq<char>)
    ensures
        path::new_path_bytes(kind, whole, dir) is Some <==> kind != ValueKind::Other
            && path::path_without(whole, dir) != whole,
        path::new_path_bytes(kind, whole, dir) is Some ==> path::new_path_bytes(kind, whole, dir)->0
            == path::units_bytes(path::utf16(path::path_without(whole, dir)) + seq![0u16]),
{
    let us = path::utf16(path::path_without(whole, dir));
    assert(us + seq![0u16] =~= us.push(0));
}

/// The directory that is removed once the program has ended is the one that was named, in quotes.
pub proof fn law_the_script_removes_the_directory(dir: Seq<char>)
    ensures
        text::ends_with(path::removal_script_view(dir), "rmdir /s /q \""@ + dir + "\""@),
        text::starts_with(path::removal_script_view(dir), "ping "@),
{
    reveal_strlit("ping ");
    reveal_strlit("rmdir /s /q \"");
    reveal_strlit("\"");
    reveal_strlit("ping 127.0.0.1 -n 3 >nul & rmdir /s /q \"");
    let s = path::removal_script_view(dir);
    let tail = "rmdir /s /q \""@ + dir + "\""@;
    assert(s.subrange(s.len() - tail.len(), s.len() as int) =~= tail);
    assert(s.subrange(0, 5) =~= "ping "@);
}

// ---------------------------------------------------------------------------------------------
// The profile
// ---------------------------------------------------------------------------------------------

/// The start-up file goes with the shell, wherever the shell is.
pub proof fn law_the_profile_goes_with_the_shell(dir: Seq<char>, shell: Seq<char>)
    ensures
        profile::profile_file_view(dir + "zsh"@) == ".zshrc"@,
        profile::profile_file_view(dir + "bash"@) == ".bashrc"@,
        !text::ends_with(shell, "zsh"@) && !text::ends_with(shell, "bash"@)
            ==> profile::profile_file_view(shell) == ".profile"@,
{
    reveal_strlit("zsh");
    reveal_strlit("bash");
    let z = dir + "zsh"@;
    let b = dir + "bash"@;
    let n = dir.len() as int;
    assert(z.subrange(n, z.len() as int) =~= "zsh"@);
    assert(b.subrange(n, b.len() as int) =~= "bash"@);
    if text::ends_with(b, "zsh"@) {
        let e = b.subrange(b.len() - 3, b.len() as int);
        assert(e[0] == b[b.len() - 3]);
        assert(b[n + 1] == 'a');
    }
}

/// The profile of a shell is in the home directory, and is not known where that is not.
pub proof fn law_the_profile_is_at_home(home: Seq<char>, shell: Seq<char>)
    ensures
        profile::profile_target_view(Some(home), shell) == Some(
            seq![home, profile::profile_file_view(shell)],
        ),
        profile::profile_target_view(None, shell) is None,
{
}

/// What PowerShell says of its profile goes before the conventional place, unless it says nothing.
pub proof fn law_powershell_knows_its_profile(said: Seq<char>, user: Option<Seq<char>>, dir: Seq<char>)
    ensures
        text::trim(said).len() > 0 ==> profile::powershell_profile_view(Some(said), user) == Some(
            seq![text::trim(said)],
        ),
        text::trim(said).len() == 0 ==> profile::powershell_profile_view(Some(said), user)
            == profile::powershell_profile_view(None, user),
        profile::powershell_profile_view(None, Some(dir)) == Some(
            seq![dir, "Documents"@, "PowerShell"@, "profile.ps1"@],
        ),
        profile::powershell_profile_view(None, None) is None,
{
}

/// The managed block assigns the proxy twice and the CA once, in the syntax of the shell.
pub proof fn law_the_block_assigns_all_three(proxy: Seq<char>, ca: Seq<char>)
    ensures
        ({
            let b = profile::block_view(proxy, ca, Syntax::Posix);
            &&& text::contains(b, "export HTTPS_PROXY=\""@ + proxy + "\"\n"@)
            &&& text::contains(b, "export HTTP_PROXY=\""@ + proxy + "\"\n"@)
            &&& text::contains(b, "export NODE_EXTRA_CA_CERTS=\""@ + ca + "\"\n"@)
        }),
        ({
            let b = profile::block_view(proxy, ca, Syntax::PowerShell);
            &&& text::contains(b, "$env:HTTPS_PROXY = \""@ + proxy + "\"\n"@)
            &&& text::contains(b, "$env:HTTP_PROXY = \""@ + proxy + "\"\n"@)
            &&& text::contains(b, "$env:NODE_EXTRA_CA_CERTS = \""@ + ca + "\"\n"@)
        }),
{
    reveal_strlit("\"\n");
    reveal_strlit("export HTTPS_PROXY=\"");
    reveal_strlit("export HTTP_PROXY=\"");
    reveal_strlit("export NODE_EXTRA_CA_CERTS=\"");
    reveal_strlit("\"\nexport HTTP_PROXY=\"");
    reveal_strlit("\"\nexport NODE_EXTRA_CA_CERTS=\"");
    reveal_strlit("$env:HTTPS_PROXY = \"");
    reveal_strlit("$env:HTTP_PROXY = \"");
    reveal_strlit("$env:NODE_EXTRA_CA_CERTS = \"");
    reveal_strlit("\"\n$env:HTTP_PROXY = \"");
    reveal_strlit("\"\n$env:NODE_EXTRA_CA_CERTS = \"");
    assert("\"\nexport HTTP_PROXY=\""@ =~= "\"\n"@ + "export HTTP_PROXY=\""@);
    assert("\"\nexport NODE_EXTRA_CA_CERTS=\""@ =~= "\"\n"@ + "export NODE_EXTRA_CA_CERTS=\""@);
    assert("\"\n$env:HTTP_PROXY = \""@ =~= "\"\n"@ + "$env:HTTP_PROXY = \""@);
    assert("\"\n$env:NODE_EXTRA_CA_CERTS = \""@ =~= "\"\n"@ + "$env:NODE_EXTRA_CA_CERTS = \""@);
    lemma_three_lines(
        profile::BEGIN@ + "\n"@,
        "export HTTPS_PROXY=\""@ + proxy + "\"\n"@,
        "export HTTP_PROXY=\""@ + proxy + "\"\n"@,
        "export NODE_EXTRA_CA_CERTS=\""@ + ca + "\"\n"@,
        profile::END@ + "\n"@,
    );
    lemma_three_lines(
        profile::BEGIN@ + "\n"@,
        "$env:HTTPS_PROXY = \""@ + proxy + "\"\n"@,
        "$env:HTTP_PROXY = \""@ + proxy + "\"\n"@,
        "$env:NODE_EXTRA_CA_CERTS = \""@ + ca + "\"\n"@,
        profile::END@ + "\n"@,
    );
    lemma_regrouped(
        profile::BEGIN@ + "\n"@,
        "export HTTPS_PROXY=\""@,
        "export HTTP_PROXY=\""@,
        "export NODE_EXTRA_CA_CERTS=\""@,
        proxy,
        ca,
        "\"\n"@,
        profile::END@,
        "\n"@,
    );
    lemma_regrouped(
        profile::BEGIN@ + "\n"@,
        "$env:HTTPS_PROXY = \""@,
        "$env:HTTP_PROXY = \""@,
        "$env:NODE_EXTRA_CA_CERTS = \""@,
        proxy,
        ca,
        "\"\n"@,
        profile::END@,
        "\n"@,
    );
}

proof fn lemma_regrouped(
    begin: Seq<char>,
    x: Seq<char>,
    y: Seq<char>,
    z: Seq<char>,
    proxy: Seq<char>,
    ca: Seq<char>,
    q: Seq<char>,
    end: Seq<char>,
    lf: Seq<char>,
)
    ensures
        begin + (x + proxy + (q + y) + proxy + (q + z) + ca + q) + end + lf == begin + (x + proxy
            + q) + (y + proxy + q) + (z + ca + q) + (end + lf),
{
    assert(begin + (x + proxy + (q + y) + proxy + (q + z) + ca + q) + end + lf =~= begin + (x + proxy
        + q) + (y + proxy + q) + (z + ca + q) + (end + lf));
}

proof fn lemma_three_lines(
    begin: Seq<char>,
    a: Seq<char>,
    b: Seq<char>,
    c: Seq<char>,
    end: Seq<char>,
)
    ensures
        text::contains(begin + a + b + c + end, a),
        text::contains(begin + a + b + c + end, b),
        text::contains(begin + a + b + c + end, c),
{
    let s = begin + a + b + c + end;
    let i = begin.len() as int;
    let j = i + a.len();
    let k = j + b.len();
    assert(s.subrange(i, i + a.len()) =~= a);
    assert(s.subrange(j, j + b.len()) =~= b);
    assert(s.subrange(k, k + c.len()) =~= c);
    assert(text::occurs_at(s, a, i));
    assert(text::occurs_at(s, b, j));
    assert(text::occurs_at(s, c, k));
}

/// What stands between the markers is the block's, and what stands around them is the user's; after an
/// opening marker that nothing closes, everything is the block's.
pub proof fn law_blocks_stand_between_markers(
    a: Seq<Seq<char>>,
    begin: Seq<char>,
    mid: Seq<Seq<char>>,
    end: Seq<char>,
    b: Seq<Seq<char>>,
)
    requires
        laws::no_markers(a),
        laws::no_markers(mid),
        laws::no_markers(b),
        text::trim(begin) == profile::BEGIN@,
        text::trim(end) == profile::END@,
    ensures
        profile::outside(a + seq![begin] + mid + seq![end] + b).0 == a + b,
        profile::inside(a + seq![begin] + mid + seq![end] + b).0 == mid,
        profile::outside(a + seq![begin] + mid).0 == a,
        profile::inside(a + seq![begin] + mid).0 == mid,
{
    reveal_strlit("# >>> llmtrim >>>");
    reveal_strlit("# <<< llmtrim <<<");
    assert(profile::BEGIN@[2] == '>' && profile::END@[2] == '<');
    let none = Seq::<Seq<char>>::empty();
    laws::law_lines_without_markers_stay(a);
    lemma_nothing_inside(a);
    let opened = a + seq![begin];
    assert(opened.drop_last() =~= a);
    assert(opened.last() == begin);
    lemma_open_lines(opened, mid);
    let held = opened + mid;
    let closed = held + seq![end];
    assert(closed.drop_last() =~= held);
    assert(closed.last() == end);
    lemma_shut_lines(closed, b);
    assert(none + mid =~= mid);
}

/// No marker stays, paired or not, neither among the user's lines nor among the block's.
pub proof fn law_no_marker_is_left(ls: Seq<Seq<char>>)
    ensures
        laws::no_markers(profile::outside(ls).0),
        laws::no_markers(profile::inside(ls).0),
    decreases ls.len(),
{
    if ls.len() > 0 {
        law_no_marker_is_left(ls.drop_last());
    }
}

proof fn lemma_nothing_inside(ls: Seq<Seq<char>>)
    requires
        laws::no_markers(ls),
    ensures
        profile::inside(ls) == (Seq::<Seq<char>>::empty(), false),
    decreases ls.len(),
{
    if ls.len() > 0 {
        let most = ls.drop_last();
        assert forall|i: int| 0 <= i < most.len() implies !laws::is_marker(#[trigger] most[i]) by {
            assert(most[i] == ls[i]);
        }
        lemma_nothing_inside(most);
        assert(!laws::is_marker(ls[ls.len() - 1]));
    }
}

proof fn lemma_open_lines(a: Seq<Seq<char>>, mid: Seq<Seq<char>>)
    requires
        laws::no_markers(mid),
        profile::outside(a).1,
        profile::inside(a).1,
    ensures
        profile::outside(a + mid) == (profile::outside(a).0, true),
        profile::inside(a + mid) == (profile::inside(a).0 + mid, true),
    decreases mid.len(),
{
    if mid.len() == 0 {
        assert(a + mid =~= a);
        assert(profile::inside(a).0 + mid =~= profile::inside(a).0);
    } else {
        let most = mid.drop_last();
        assert forall|i: int| 0 <= i < most.len() implies !laws::is_marker(#[trigger] most[i]) by {
            assert(most[i] == mid[i]);
        }
        lemma_open_lines(a, most);
        assert((a + mid).drop_last() =~= a + most);
        assert(!laws::is_marker(mid[mid.len() - 1]));
        assert((profile::inside(a).0 + most).push(mid.last()) =~= profile::inside(a).0 + mid);
    }
}

proof fn lemma_shut_lines(a: Seq<Seq<char>>, b: Seq<Seq<char>>)
    requires
        laws::no_markers(b),
        !profile::outside(a).1,
        !profile::inside(a).1,
    ensures
        profile::outside(a + b) == (profile::outside(a).0 + b, false),
        profile::inside(a + b) == (profile::inside(a).0, false),
    decreases b.len(),
{
    if b.len() == 0 {
        assert(a + b =~= a);
        assert(profile::outside(a).0 + b =~= profile::outside(a).0);
    } else {
        let most = b.drop_last();
        assert forall|i: int| 0 <= i < most.len() implies !laws::is_marker(#[trigger] most[i]) by {
            assert(most[i] == b[i]);
        }
        lemma_shut_lines(a, most);
        assert((a + b).drop_last() =~= a + most);
        assert(!laws::is_marker(b[b.len() - 1]));
        assert((profile::outside(a).0 + most).push(b.last()) =~= profile::outside(a).0 + b);
    }
}

/// Lines are written one after another, each closed by a line feed.
pub proof fn law_each_line_is_closed(a: Seq<Seq<char>>, b: Seq<Seq<char>>, line: Seq<char>)
    ensures
        profile::unlines(Seq::<Seq<char>>::empty()) == Seq::<char>::empty(),
        profile::unlines(seq![line]) == line.push('\n'),
        profile::unlines(a + b) == profile::unlines(a) + profile::unlines(b),
    decreases b.len(),
{
    assert(seq![line].drop_last() =~= Seq::<Seq<char>>::empty());
    assert(profile::unlines(Seq::<Seq<char>>::empty()) =~= Seq::<char>::empty());
    assert(profile::unlines(seq![line]) =~= line.push('\n'));
    if b.len() == 0 {
        assert(a + b =~= a);
        assert(profile::unlines(a) + profile::unlines(b) =~= profile::unlines(a));
    } else {
        law_each_line_is_closed(a, b.drop_last(), line);
        assert((a + b).drop_last() =~= a + b.drop_last());
        let x = profile::unlines(a);
        let y = profile::unlines(b.drop_last());
        let z = b.last().push('\n');
        assert(x + y + z =~= x + (y + z));
    }
}

} // verus!
