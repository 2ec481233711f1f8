use vstd::prelude::*;
use crate::error::{ErrorKind, LauncherError};
use crate::text::{chars_of, has_prefix, owned, string_from_chars, signed_decimal};
use crate::theme::append_str;

verus! {

broadcast use vstd::string::group_string_axioms;

/// Which game installs the launcher can start.
#[derive(Debug, Clone, Copy, PartialEq, Eq)]
pub struct InstalledGames {
    pub cs2_legacy_branch: bool,
    pub csgo_standalone: bool,
}

/// The installs the launcher offers: both are always offered.
pub fn detect_installed_games() -> (r: Result<InstalledGames, LauncherError>)
    ensures
        r matches Ok(g) && g.cs2_legacy_branch && g.csgo_standalone,
{
    Ok(InstalledGames { cs2_legacy_branch: true, csgo_standalone: true })
}

/// Steam's install folder from the registry values the launcher looks at, in this order:
/// `SteamPath` of the current user, then `InstallPath` of the machine's 32-bit view, then
/// `InstallPath` of its native view; the first value present wins.
pub fn get_steam_install_path(
    user_steam_path: Option<String>,
    wow64_install_path: Option<String>,
    install_path: Option<String>,
) -> (r: Option<String>)
    ensures
        r == match user_steam_path {
            Some(p) => Some(p),
            None => match wow64_install_path {
                Some(p) => Some(p),
                None => install_path,
            },
        },
{
    match user_steam_path {
        Some(p) => Some(p),
        None => match wow64_install_path {
            Some(p) => Some(p),
            None => install_path,
        },
    }
}

/// Steam's install folder, when it holds `steam.exe`.
pub fn steam_install_dir(steam_path: Option<String>, steam_exe_exists: bool) -> (r: Option<String>)
    ensures
        r == if steam_exe_exists { steam_path } else { None },
{
    if steam_exe_exists {
        steam_path
    } else {
        None
    }
}

/// The game's process id from its window's owner: none without a window, or when the owner is
/// reported as 0.
pub fn find_csgo_pid(window_owner: Option<u32>) -> (r: Option<u32>)
    ensures
        r == match window_owner {
            Some(pid) => if pid != 0 { Some(pid) } else { None },
            None => None,
        },
{
    match window_owner {
        Some(pid) => if pid != 0 {
            Some(pid)
        } else {
            None
        },
        None => None,
    }
}

/// The Steam URL that launches a game: CS:GO (730) with its first launch option, any other app
/// through Steam's launch dialog.
pub open spec fn steam_launch_url_spec(appid: i32) -> Seq<char> {
    if appid == 730 {
        "steam://launch/730/option1"@
    } else {
        "steam://launch/"@ + signed_decimal(appid as int) + "/dialog"@
    }
}

pub fn steam_launch_url(appid: i32) -> (r: String)
    ensures
        r@ == steam_launch_url_spec(appid),
{
    if appid == 730 {
        owned("steam://launch/730/option1")
    } else {
        let mut v = chars_of("steam://launch/");
        let mut digits = crate::text::signed_decimal_chars(appid as i64);
        v.append(&mut digits);
        append_str(&mut v, "/dialog");
        string_from_chars(v.as_slice())
    }
}

/// Whether a module entry's name matches: its UTF-16 units agree with `name` as far as both go.
pub open spec fn module_name_matches_spec(module: Seq<u16>, name: Seq<u16>) -> bool {
    forall|i: int| 0 <= i < module.len() && i < name.len() ==> module[i] == name[i]
}

/// Compares a module entry's name with the NUL-terminated name looked for, unit by unit, over
/// the shorter of the two.
pub fn module_name_matches(module: &[u16], name: &[u16]) -> (r: bool)
    ensures
        r == module_name_matches_spec(module@, name@),
{
    let mut i: usize = 0;
    while i < module.len() && i < name.len()
        invariant
            i <= module@.len(),
            i <= name@.len(),
            forall|k: int| 0 <= k < i ==> module@[k] == name@[k],
        decreases module@.len() - i,
    {
        if module[i] != name[i] {
            return false;
        }
        i = i + 1;
    }
    true
}

/// Whether a number is a Unicode scalar value (a valid `char`).
pub open spec fn is_scalar_value(v: u32) -> bool {
    v < 0xd800 || (0xe000 <= v && v <= 0x10ffff)
}

/// `char::from_u32`: the character with this code, where there is one.
#[verifier::external_body]
fn char_from_u32(v: u32) -> (r: Option<char>)
    ensures
        is_scalar_value(v) ==> r == Some(v as char),
        !is_scalar_value(v) ==> r is None,
{
    char::from_u32(v)
}

/// UTF-16 decoded as `String::from_utf16_lossy` does: each unpaired surrogate becomes U+FFFD.
pub open spec fn utf16_lossy(u: Seq<u16>) -> Seq<char>
    decreases u.len(),
{
    if u.len() == 0 {
        seq![]
    } else if u[0] < 0xd800 || u[0] > 0xdfff {
        seq![(u[0] as u32) as char] + utf16_lossy(u.drop_first())
    } else if u[0] <= 0xdbff && u.len() > 1 && 0xdc00 <= u[1] && u[1] <= 0xdfff {
        seq![((((u[0] - 0xd800) * 0x400) + (u[1] - 0xdc00) + 0x10000) as u32) as char]
            + utf16_lossy(u.skip(2))
    } else {
        seq!['\u{fffd}'] + utf16_lossy(u.drop_first())
    }
}

/// Decodes UTF-16, replacing unpaired surrogates with U+FFFD.
pub fn decode_utf16_lossy(units: &[u16]) -> (r: String)
    ensures
        r@ == utf16_lossy(units@),
{
    let mut out: Vec<char> = Vec::new();
    let mut i: usize = 0;
    assert(units@.skip(0) =~= units@);
    while i < units.len()
        invariant
            i <= units@.len(),
            utf16_lossy(units@) == out@ + utf16_lossy(units@.skip(i as int)),
        decreases units@.len() - i,
    {
        let ghost rest = units@.skip(i as int);
        let u = units[i];
        assert(rest[0] == u);
        if u < 0xd800 || u > 0xdfff {
            let c = char_from_u32(u as u32).unwrap();
            assert(rest.drop_first() =~= units@.skip(i + 1));
            let ghost before = out@;
            out.push(c);
            assert(before + utf16_lossy(rest) =~= out@ + utf16_lossy(units@.skip(i + 1)));
            i = i + 1;
        } else if u <= 0xdbff && i + 1 < units.len() && 0xdc00 <= units[i + 1] && units[i + 1] <= 0xdfff {
            let w = units[i + 1];
            assert(rest[1] == w);
            let v: u32 = (((u - 0xd800) as u32) * 0x400) + ((w - 0xdc00) as u32) + 0x10000;
            let c = char_from_u32(v).unwrap();
            assert(rest.skip(2) =~= units@.skip(i + 2));
            let ghost before = out@;
            out.push(c);
            assert(before + utf16_lossy(rest) =~= out@ + utf16_lossy(units@.skip(i + 2)));
            i = i + 2;
        } else {
            assert(rest.drop_first() =~= units@.skip(i + 1));
            let ghost before = out@;
            out.push('\u{fffd}');
            assert(before + utf16_lossy(rest) =~= out@ + utf16_lossy(units@.skip(i + 1)));
            i = i + 1;
        }
    }
    assert(units@.skip(i as int) =~= Seq::<u16>::empty());
    assert(out@ + Seq::<char>::empty() =~= out@);
    string_from_chars(out.as_slice())
}

/// The path of a process's executable from the UTF-16 name that Windows reported, or `None`
/// when the process could not be opened or queried.
pub fn get_process_image_path(image_name: Option<Vec<u16>>) -> (r: Option<String>)
    ensures
        match image_name {
            Some(u) => r matches Some(s) && s@ == utf16_lossy(u@),
            None => r is None,
        },
{
    match image_name {
        Some(u) => Some(decode_utf16_lossy(u.as_slice())),
        None => None,
    }
}

/// `s` without its trailing carriage returns.
pub open spec fn strip_cr(s: Seq<char>) -> Seq<char>
    decreases s.len(),
{
    if s.len() > 0 && s.last() == '\r' {
        strip_cr(s.drop_last())
    } else {
        s
    }
}

/// A Windows line ending.
pub open spec fn crlf() -> Seq<char> {
    seq!['\r', '\n']
}

/// The pinned client version line, without its line ending.
pub open spec fn version_text() -> Seq<char> {
    "ClientVersion=2000258"@
}

/// The pinned client version line, with its line ending.
pub open spec fn pinned_version_line() -> Seq<char> {
    version_text() + crlf()
}

/// One line of `steam.inf` after pinning: a `ClientVersion=` line is replaced, any other kept;
/// every line ends in CR LF.
pub open spec fn pin_line(line: Seq<char>) -> Seq<char> {
    if has_prefix(line, "ClientVersion="@) {
        pinned_version_line()
    } else {
        line + crlf()
    }
}

/// The pinned text of some line pieces, each stripped of its trailing carriage returns.
pub open spec fn pin_pieces(ps: Seq<Seq<char>>) -> Seq<char>
    decreases ps.len(),
{
    if ps.len() == 0 {
        seq![]
    } else {
        pin_pieces(ps.drop_last()) + pin_line(strip_cr(ps.last()))
    }
}

/// Whether some piece is a `ClientVersion=` line.
pub open spec fn has_version_line(ps: Seq<Seq<char>>) -> bool {
    exists|i: int| 0 <= i < ps.len() && has_prefix(strip_cr(#[trigger] ps[i]), "ClientVersion="@)
}

/// `steam.inf` with its client version pinned to 2000258, so that the standalone game's
/// inventory works: the version line is replaced, or added when there is none.
pub open spec fn pinned_client_version(content: Seq<char>) -> Seq<char> {
    let ps = crate::text::line_pieces(content);
    pin_pieces(ps) + if has_version_line(ps) {
        Seq::<char>::empty()
    } else {
        pinned_version_line()
    }
}

fn strip_cr_len(p: &[char]) -> (n: usize)
    ensures
        n <= p@.len(),
        strip_cr(p@) == p@.take(n as int),
{
    let mut n = p.len();
    assert(p@.take(n as int) =~= p@);
    while n > 0 && p[n - 1] == '\r'
        invariant
            n <= p@.len(),
            strip_cr(p@) == strip_cr(p@.take(n as int)),
        decreases n,
    {
        assert(p@.take(n as int).drop_last() =~= p@.take(n - 1));
        n = n - 1;
    }
    if n > 0 {
        assert(p@.take(n as int).last() == p@[n - 1]);
    }
    n
}

fn append_crlf(v: &mut Vec<char>)
    ensures
        final(v)@ == old(v)@ + crlf(),
{
    v.push('\r');
    v.push('\n');
    assert(final(v)@ =~= old(v)@ + crlf());
}

/// Pins the client version in the text of `steam.inf`.
pub fn pin_client_version(content: &str) -> (r: String)
    ensures
        r@ == pinned_client_version(content@),
{
    let cs = chars_of(content);
    let pieces = split_pieces_of(cs.as_slice());
    let ghost ps = crate::text::line_pieces(content@);
    let prefix = chars_of("ClientVersion=");
    let mut out: Vec<char> = Vec::new();
    let mut found = false;
    let mut i: usize = 0;
    while i < pieces.len()
        invariant
            cs@ == content@,
            prefix@ == "ClientVersion="@,
            pieces@.map_values(|p: Vec<char>| p@) == ps,
            i <= pieces@.len(),
            out@ == pin_pieces(ps.take(i as int)),
            found == has_version_line(ps.take(i as int)),
        decreases pieces@.len() - i,
    {
        let p = &pieces[i];
        let n = strip_cr_len(p.as_slice());
        let line = crate::text::slice_subrange(p.as_slice(), 0, n);
        assert(ps[i as int] == p@);
        assert(ps.take(i + 1).drop_last() =~= ps.take(i as int));
        assert(ps.take(i + 1).last() == p@);
        let is_version = crate::text::starts_with(line, prefix.as_slice());
        if is_version {
            append_str(&mut out, "ClientVersion=2000258");
            append_crlf(&mut out);
            found = true;
            assert(has_version_line(ps.take(i + 1))) by {
                assert(ps.take(i + 1)[i as int] == p@);
            }
        } else {
            let mut l = vstd::slice::slice_to_vec(line);
            out.append(&mut l);
            append_crlf(&mut out);
            assert(has_version_line(ps.take(i + 1)) == found) by {
                if has_version_line(ps.take(i + 1)) {
                    let k = choose|k: int| 0 <= k < ps.take(i + 1).len() && has_prefix(strip_cr(#[trigger] ps.take(i + 1)[k]), "ClientVersion="@);
                    if k < i {
                        assert(ps.take(i as int)[k] == ps.take(i + 1)[k]);
                    }
                }
                if found {
                    let k = choose|k: int| 0 <= k < ps.take(i as int).len() && has_prefix(strip_cr(#[trigger] ps.take(i as int)[k]), "ClientVersion="@);
                    assert(ps.take(i + 1)[k] == ps.take(i as int)[k]);
                }
            }
        }
        i = i + 1;
    }
    assert(ps.take(pieces@.len() as int) =~= ps);
    if !found {
        append_str(&mut out, "ClientVersion=2000258");
        append_crlf(&mut out);
    } else {
        assert(out@ + Seq::<char>::empty() =~= out@);
    }
    string_from_chars(out.as_slice())
}

/// The lines `ls`, each followed by CR LF.
pub open spec fn join_crlf(ls: Seq<Seq<char>>) -> Seq<char>
    decreases ls.len(),
{
    if ls.len() == 0 {
        seq![]
    } else {
        join_crlf(ls.drop_last()) + ls.last() + crlf()
    }
}

/// What a piece of `steam.inf` reads once pinned, without its line ending.
pub open spec fn pinned_line_text(piece: Seq<char>) -> Seq<char> {
    if has_prefix(strip_cr(piece), "ClientVersion="@) {
        version_text()
    } else {
        strip_cr(piece)
    }
}

/// Each piece as it reads once pinned.
pub open spec fn pinned_texts(ps: Seq<Seq<char>>) -> Seq<Seq<char>> {
    ps.map_values(|p: Seq<char>| pinned_line_text(p))
}

/// The lines of pinned `steam.inf`, without their line endings.
pub open spec fn pinned_lines(content: Seq<char>) -> Seq<Seq<char>> {
    let ps = crate::text::line_pieces(content);
    if has_version_line(ps) {
        pinned_texts(ps)
    } else {
        pinned_texts(ps).push(version_text())
    }
}

/// Each line with the carriage return that is left before its line feed.
spec fn with_cr(ls: Seq<Seq<char>>) -> Seq<Seq<char>> {
    ls.map_values(|l: Seq<char>| l.push('\r'))
}

spec fn no_line_feed(s: Seq<char>) -> bool {
    forall|i: int| 0 <= i < s.len() ==> s[i] != '\n'
}

/// A line that pinning leaves as it is.
spec fn settled_line(l: Seq<char>) -> bool {
    &&& no_line_feed(l)
    &&& (l.len() == 0 || l.last() != '\r')
    &&& (has_prefix(l, "ClientVersion="@) ==> l == version_text())
}

proof fn lemma_strip_cr(s: Seq<char>)
    ensures
        strip_cr(s).len() <= s.len(),
        strip_cr(s) == s.take(strip_cr(s).len() as int),
        strip_cr(s).len() == 0 || strip_cr(s).last() != '\r',
    decreases s.len(),
{
    if s.len() > 0 && s.last() == '\r' {
        lemma_strip_cr(s.drop_last());
        assert(s.drop_last().take(strip_cr(s).len() as int) =~= s.take(strip_cr(s).len() as int));
    } else {
        assert(s.take(s.len() as int) =~= s);
    }
}

proof fn lemma_strip_cr_settled(l: Seq<char>)
    requires
        l.len() == 0 || l.last() != '\r',
    ensures
        strip_cr(l.push('\r')) == l,
{
    assert(l.push('\r').drop_last() =~= l);
    assert(strip_cr(l) == l);
}

proof fn lemma_pieces_no_line_feed(s: Seq<char>, cur: Seq<char>)
    requires
        no_line_feed(cur),
    ensures
        forall|k: int|
            0 <= k < crate::text::pieces_from(s, cur).len() ==> no_line_feed(
                #[trigger] crate::text::pieces_from(s, cur)[k],
            ),
    decreases s.len(),
{
    if s.len() == 0 {
        assert forall|k: int| 0 <= k < crate::text::pieces_from(s, cur).len() implies no_line_feed(
            #[trigger] crate::text::pieces_from(s, cur)[k],
        ) by {
            assert(crate::text::pieces_from(s, cur)[k] == cur);
        }
    } else if s[0] == '\n' {
        lemma_pieces_no_line_feed(s.drop_first(), seq![]);
        let r = crate::text::pieces_from(s.drop_first(), seq![]);
        assert(crate::text::pieces_from(s, cur) == seq![cur] + r);
        assert forall|k: int| 0 <= k < (seq![cur] + r).len() implies no_line_feed(
            #[trigger] (seq![cur] + r)[k],
        ) by {
            if k > 0 {
                assert((seq![cur] + r)[k] == r[k - 1]);
            }
        }
    } else {
        let c = cur.push(s[0]);
        assert forall|i: int| 0 <= i < c.len() implies c[i] != '\n' by {
            if i < cur.len() {
                assert(c[i] == cur[i]);
            }
        }
        lemma_pieces_no_line_feed(s.drop_first(), c);
        assert(crate::text::pieces_from(s, cur) == crate::text::pieces_from(s.drop_first(), c));
    }
}

proof fn lemma_pieces_of_line(l: Seq<char>, rest: Seq<char>, cur: Seq<char>)
    requires
        no_line_feed(l),
    ensures
        crate::text::pieces_from(l + crlf() + rest, cur) == seq![cur + l.push('\r')]
            + crate::text::pieces_from(rest, seq![]),
    decreases l.len(),
{
    let s = l + crlf() + rest;
    if l.len() == 0 {
        assert(s =~= seq!['\r', '\n'] + rest);
        let t = s.drop_first();
        assert(t =~= seq!['\n'] + rest);
        assert(t.drop_first() =~= rest);
        assert(t[0] == '\n');
        assert(crate::text::pieces_from(t, cur.push('\r')) == seq![cur.push('\r')]
            + crate::text::pieces_from(rest, seq![]));
        assert(s[0] == '\r');
        assert(crate::text::pieces_from(s, cur) == crate::text::pieces_from(t, cur.push('\r')));
        assert(cur.push('\r') =~= cur + l.push('\r'));
    } else {
        assert(l[0] != '\n');
        assert(s[0] == l[0]);
        assert(s.drop_first() =~= l.drop_first() + crlf() + rest);
        assert forall|i: int| 0 <= i < l.drop_first().len() implies l.drop_first()[i] != '\n' by {
            assert(l.drop_first()[i] == l[i + 1]);
        }
        lemma_pieces_of_line(l.drop_first(), rest, cur.push(l[0]));
        assert(cur.push(l[0]) + l.drop_first().push('\r') =~= cur + l.push('\r'));
    }
}

proof fn lemma_pieces_of_joined(ls: Seq<Seq<char>>, rest: Seq<char>)
    requires
        forall|k: int| 0 <= k < ls.len() ==> no_line_feed(#[trigger] ls[k]),
    ensures
        crate::text::pieces_from(join_crlf(ls) + rest, seq![]) == with_cr(ls)
            + crate::text::pieces_from(rest, seq![]),
    decreases ls.len(),
{
    if ls.len() == 0 {
        assert(join_crlf(ls) + rest =~= rest);
        assert(with_cr(ls) + crate::text::pieces_from(rest, seq![]) =~= crate::text::pieces_from(
            rest,
            seq![],
        ));
    } else {
        let init = ls.drop_last();
        let last = ls.last();
        assert(no_line_feed(ls[ls.len() - 1]));
        assert forall|k: int| 0 <= k < init.len() implies no_line_feed(#[trigger] init[k]) by {
            assert(init[k] == ls[k]);
        }
        assert(join_crlf(ls) + rest =~= join_crlf(init) + (last + crlf() + rest));
        lemma_pieces_of_joined(init, last + crlf() + rest);
        lemma_pieces_of_line(last, rest, seq![]);
        assert(Seq::<char>::empty() + last.push('\r') =~= last.push('\r'));
        assert(with_cr(ls) =~= with_cr(init).push(last.push('\r')));
        assert(with_cr(init) + (seq![last.push('\r')] + crate::text::pieces_from(rest, seq![]))
            =~= with_cr(ls) + crate::text::pieces_from(rest, seq![]));
    }
}

proof fn lemma_pin_pieces_joined(ps: Seq<Seq<char>>)
    ensures
        pin_pieces(ps) == join_crlf(pinned_texts(ps)),
    decreases ps.len(),
{
    let ls = pinned_texts(ps);
    if ps.len() == 0 {
        assert(ls =~= Seq::<Seq<char>>::empty());
    } else {
        lemma_pin_pieces_joined(ps.drop_last());
        assert(ls.drop_last() =~= pinned_texts(ps.drop_last()));
        assert(ls.last() == pinned_line_text(ps.last()));
        assert(pin_line(strip_cr(ps.last())) == pinned_line_text(ps.last()) + crlf());
        assert(pin_pieces(ps.drop_last()) + (pinned_line_text(ps.last()) + crlf()) =~= join_crlf(
            ls.drop_last(),
        ) + ls.last() + crlf());
    }
}

proof fn lemma_pinned_joined(content: Seq<char>)
    ensures
        pinned_client_version(content) == join_crlf(pinned_lines(content)),
{
    let ps = crate::text::line_pieces(content);
    lemma_pin_pieces_joined(ps);
    if has_version_line(ps) {
        assert(pin_pieces(ps) + Seq::<char>::empty() =~= pin_pieces(ps));
    } else {
        let ls = pinned_lines(content);
        assert(ls.drop_last() =~= pinned_texts(ps));
        assert(pin_pieces(ps) + (version_text() + crlf()) =~= join_crlf(ls.drop_last()) + ls.last()
            + crlf());
    }
}

proof fn lemma_version_text_settled()
    ensures
        settled_line(version_text()),
{
    reveal_strlit("ClientVersion=2000258");
    let v = version_text();
    assert(v.len() == 21);
    assert(v.last() == '8');
    assert forall|i: int| 0 <= i < v.len() implies v[i] != '\n' by {
        assert(v =~= seq!['C', 'l', 'i', 'e', 'n', 't', 'V', 'e', 'r', 's', 'i', 'o', 'n', '=', '2', '0', '0', '0', '2', '5', '8']);
    }
}

proof fn lemma_pinned_lines_settled(content: Seq<char>)
    ensures
        forall|k: int| 0 <= k < pinned_lines(content).len() ==> settled_line(
            #[trigger] pinned_lines(content)[k],
        ),
        exists|k: int| 0 <= k < pinned_lines(content).len() && #[trigger] pinned_lines(content)[k]
            == version_text(),
{
    let ps = crate::text::line_pieces(content);
    let ts = pinned_texts(ps);
    let ls = pinned_lines(content);
    lemma_version_text_settled();
    lemma_pieces_no_line_feed(content, seq![]);
    assert forall|k: int| 0 <= k < ts.len() implies settled_line(#[trigger] ts[k]) by {
        let p = ps[k];
        assert(ts[k] == pinned_line_text(p));
        lemma_strip_cr(p);
        let q = strip_cr(p);
        if !has_prefix(q, "ClientVersion="@) {
            assert(no_line_feed(p));
            assert forall|i: int| 0 <= i < q.len() implies q[i] != '\n' by {
                assert(q[i] == p.take(q.len() as int)[i]);
            }
        }
    }
    if has_version_line(ps) {
        let k = choose|k: int| 0 <= k < ps.len() && has_prefix(strip_cr(#[trigger] ps[k]), "ClientVersion="@);
        assert(ls[k] == version_text());
    } else {
        assert(ls[ls.len() - 1] == version_text());
        assert forall|k: int| 0 <= k < ls.len() implies settled_line(#[trigger] ls[k]) by {
            if k < ts.len() {
                assert(ls[k] == ts[k]);
            }
        }
    }
}

/// What pinning makes of `steam.inf`: every line ends in CR LF; some line is the pinned
/// `ClientVersion=2000258` and every `ClientVersion=` line is that one; every other line is
/// kept, in order, without its trailing carriage returns; the pinned line is added at the end
/// only when there was none.
pub proof fn lemma_pin_client_version_lines(content: Seq<char>)
    ensures
        pinned_client_version(content) == join_crlf(pinned_lines(content)),
        exists|k: int| 0 <= k < pinned_lines(content).len() && #[trigger] pinned_lines(content)[k]
            == version_text(),
        forall|k: int|
            0 <= k < pinned_lines(content).len() && has_prefix(
                #[trigger] pinned_lines(content)[k],
                "ClientVersion="@,
            ) ==> pinned_lines(content)[k] == version_text(),
        forall|i: int|
            0 <= i < crate::text::line_pieces(content).len() && !has_prefix(
                strip_cr(#[trigger] crate::text::line_pieces(content)[i]),
                "ClientVersion="@,
            ) ==> pinned_lines(content)[i] == strip_cr(crate::text::line_pieces(content)[i]),
        pinned_lines(content).len() == crate::text::line_pieces(content).len() + if has_version_line(
            crate::text::line_pieces(content),
        ) {
            0int
        } else {
            1int
        },
{
    let ps = crate::text::line_pieces(content);
    let ls = pinned_lines(content);
    lemma_pinned_joined(content);
    lemma_pinned_lines_settled(content);
    assert forall|k: int|
        0 <= k < ls.len() && has_prefix(#[trigger] ls[k], "ClientVersion="@) implies ls[k]
            == version_text() by {
        assert(settled_line(ls[k]));
    }
    assert forall|i: int|
        0 <= i < ps.len() && !has_prefix(strip_cr(#[trigger] ps[i]), "ClientVersion="@) implies ls[i]
            == strip_cr(ps[i]) by {
        assert(pinned_texts(ps)[i] == pinned_line_text(ps[i]));
        if !has_version_line(ps) {
            assert(ls[i] == pinned_texts(ps)[i]);
        }
    }
}

/// Pinning the client version of `steam.inf` a second time changes nothing.
pub proof fn lemma_pin_client_version_idempotent(content: Seq<char>)
    ensures
        pinned_client_version(pinned_client_version(content)) == pinned_client_version(content),
{
    let ls = pinned_lines(content);
    let out = pinned_client_version(content);
    lemma_pinned_joined(content);
    lemma_pinned_lines_settled(content);
    assert forall|k: int| 0 <= k < ls.len() implies no_line_feed(#[trigger] ls[k]) by {
        assert(settled_line(ls[k]));
    }
    lemma_pieces_of_joined(ls, seq![]);
    assert(join_crlf(ls) + Seq::<char>::empty() =~= join_crlf(ls));
    let qs = crate::text::line_pieces(out);
    assert(qs == with_cr(ls));
    assert(pinned_texts(qs) =~= ls) by {
        assert forall|k: int| 0 <= k < ls.len() implies #[trigger] pinned_texts(qs)[k] == ls[k] by {
            assert(settled_line(ls[k]));
            assert(qs[k] == ls[k].push('\r'));
            lemma_strip_cr_settled(ls[k]);
        }
    }
    let k = choose|k: int| 0 <= k < ls.len() && #[trigger] ls[k] == version_text();
    assert(has_version_line(qs)) by {
        reveal_strlit("ClientVersion=2000258");
        reveal_strlit("ClientVersion=");
        lemma_version_text_settled();
        lemma_strip_cr_settled(ls[k]);
        assert(strip_cr(qs[k]) == version_text());
        assert(version_text().subrange(0, 14) =~= "ClientVersion="@);
    }
    lemma_pin_pieces_joined(qs);
    assert(pin_pieces(qs) + Seq::<char>::empty() =~= pin_pieces(qs));
}

fn split_pieces_of(cs: &[char]) -> (r: Vec<Vec<char>>)
    ensures
        r@.map_values(|p: Vec<char>| p@) == crate::text::line_pieces(cs@),
{
    crate::text::split_pieces(cs)
}

/// The position of the first `c` in `s`.
pub open spec fn first_index_of(s: Seq<char>, c: char) -> Option<int>
    decreases s.len(),
{
    if s.len() == 0 {
        None
    } else if s[0] == c {
        Some(0)
    } else {
        match first_index_of(s.drop_first(), c) {
            Some(i) => Some(i + 1),
            None => None,
        }
    }
}

pub(crate) fn find_char(s: &[char], c: char) -> (r: Option<usize>)
    ensures
        match first_index_of(s@, c) {
            Some(i) => 0 <= i < s@.len() && r == Some(i as usize),
            None => r is None,
        },
{
    let mut i: usize = 0;
    assert(s@.skip(0) =~= s@);
    while i < s.len()
        invariant
            i <= s@.len(),
            first_index_of(s@, c) == match first_index_of(s@.skip(i as int), c) {
                Some(j) => Some(j + i),
                None => None::<int>,
            },
        decreases s@.len() - i,
    {
        let ghost rest = s@.skip(i as int);
        assert(rest[0] == s@[i as int]);
        assert(rest.drop_first() =~= s@.skip(i + 1));
        if s[i] == c {
            return Some(i);
        }
        i = i + 1;
    }
    None
}

/// The library path on one line of `libraryfolders.vdf`: on a line that starts (after white
/// space) with the key `"path"`, the quoted value that follows the key.
pub open spec fn vdf_line_path(line: Seq<char>) -> Option<Seq<char>> {
    let t = crate::text::trim(line);
    let key = "\"path\""@;
    if has_prefix(t, key) {
        let after = t.skip(key.len() as int);
        match first_index_of(after, '"') {
            Some(start) => {
                let rest = after.skip(start + 1);
                match first_index_of(rest, '"') {
                    Some(end) => Some(rest.take(end)),
                    None => None,
                }
            },
            None => None,
        }
    } else {
        None
    }
}

/// The library paths read from the lines of a file, in order.
pub open spec fn vdf_paths(lines: Seq<Seq<char>>) -> Seq<Seq<char>>
    decreases lines.len(),
{
    if lines.len() == 0 {
        seq![]
    } else {
        let rest = vdf_paths(lines.drop_last());
        match vdf_line_path(lines.last()) {
            Some(p) => rest.push(p),
            None => rest,
        }
    }
}

/// The library paths the launcher reads from `libraryfolders.vdf`, in file order; the game is
/// looked for under each of them.
pub fn vdf_library_paths(content: &str) -> (r: Vec<String>)
    ensures
        crate::releases::texts(r@) == vdf_paths(crate::text::line_pieces(content@)),
{
    let cs = chars_of(content);
    let pieces = split_pieces_of(cs.as_slice());
    let ghost ps = crate::text::line_pieces(content@);
    let key = chars_of("\"path\"");
    let mut out: Vec<String> = Vec::new();
    let mut i: usize = 0;
    while i < pieces.len()
        invariant
            key@ == "\"path\""@,
            pieces@.map_values(|p: Vec<char>| p@) == ps,
            i <= pieces@.len(),
            crate::releases::texts(out@) == vdf_paths(ps.take(i as int)),
        decreases pieces@.len() - i,
    {
        let p = &pieces[i];
        assert(ps[i as int] == p@);
        assert(ps.take(i + 1).drop_last() =~= ps.take(i as int));
        assert(ps.take(i + 1).last() == p@);
        let (a, b) = crate::text::trim_bounds(p.as_slice());
        let t = crate::text::slice_subrange(p.as_slice(), a, b);
        if crate::text::starts_with(t, key.as_slice()) {
            let after = crate::text::slice_subrange(t, key.len(), t.len());
            assert(after@ =~= t@.skip(key@.len() as int));
            if let Some(start) = find_char(after, '"') {
                let rest = crate::text::slice_subrange(after, start + 1, after.len());
                assert(rest@ =~= after@.skip(start + 1));
                if let Some(end) = find_char(rest, '"') {
                    let found = crate::text::slice_subrange(rest, 0, end);
                    assert(found@ =~= rest@.take(end as int));
                    let ghost before = out@;
                    out.push(string_from_chars(found));
                    assert(crate::releases::texts(out@) =~= crate::releases::texts(before).push(found@));
                }
            }
        }
        i = i + 1;
    }
    assert(ps.take(pieces@.len() as int) =~= ps);
    out
}

/// The Steam folders searched first for a game, in order: Steam's own install folder when it is
/// known, then the usual install places.
pub open spec fn known_libraries(steam_path: Option<Seq<char>>) -> Seq<Seq<char>> {
    let usual = seq!["C:\\Program Files (x86)\\Steam"@, "D:\\Steam"@, "E:\\Steam"@];
    match steam_path {
        Some(p) => seq![p] + usual,
        None => usual,
    }
}

/// The Steam folders searched first for a game.
pub fn known_steam_libraries(steam_path: Option<String>) -> (r: Vec<String>)
    ensures
        crate::releases::texts(r@) == known_libraries(
            match steam_path {
                Some(p) => Some(p@),
                None => None,
            },
        ),
{
    let mut libs: Vec<String> = Vec::new();
    let ghost given = match &steam_path {
        Some(p) => Some(p@),
        None => None::<Seq<char>>,
    };
    match steam_path {
        Some(p) => libs.push(p),
        None => {},
    }
    libs.push(owned("C:\\Program Files (x86)\\Steam"));
    libs.push(owned("D:\\Steam"));
    libs.push(owned("E:\\Steam"));
    assert(crate::releases::texts(libs@) =~= known_libraries(given));
    libs
}

/// The Steam folder whose `libraryfolders.vdf` lists the other libraries: Steam's install
/// folder, or the usual one when it is not known.
pub fn library_list_root(steam_path: Option<String>) -> (r: String)
    ensures
        r@ == match steam_path {
            Some(p) => p@,
            None => "C:\\Program Files (x86)\\Steam"@,
        },
{
    match steam_path {
        Some(p) => p,
        None => owned("C:\\Program Files (x86)\\Steam"),
    }
}

/// Where a game's folder lies inside a Steam library: under `steamapps`, then `common`.
pub open spec fn game_dir_in(lib: Seq<char>, game: Seq<char>, r: Seq<char>) -> bool {
    exists|a: Seq<char>, b: Seq<char>|
        crate::theme::joined_path(lib, "steamapps"@, a) && crate::theme::joined_path(a, "common"@, b)
            && crate::theme::joined_path(b, game, r)
}

/// A path without any `?`, which no step of joining onto it can turn into a verbatim one.
proof fn lemma_no_question_not_verbatim(s: Seq<char>)
    requires
        !s.contains('?'),
    ensures
        !crate::theme::is_verbatim(s),
{
    reveal_strlit("\\\\?\\");
    if crate::theme::is_verbatim(s) {
        assert(s.subrange(0, 4)[2] == '?');
        assert(s[2] == '?');
    }
}

/// Joining two paths that lack a character other than a separator gives a path that lacks it.
proof fn lemma_join_lacks(base: Seq<char>, rel: Seq<char>, r: Seq<char>, c: char)
    requires
        c != '/' && c != '\\',
        !base.contains(c),
        !rel.contains(c),
        crate::theme::joined_path(base, rel, r),
    ensures
        !r.contains(c),
{
    let sep = choose|sep: Seq<char>|
        (sep == Seq::<char>::empty() || sep == seq!['/'] || sep == seq!['\\']) && r == base + sep + rel;
    if r.contains(c) {
        let i = choose|i: int| 0 <= i < r.len() && r[i] == c;
        if i < base.len() {
            assert(r[i] == base[i]);
        } else if i < base.len() + sep.len() {
            assert(r[i] == sep[i - base.len()]);
        } else {
            assert(r[i] == rel[i - base.len() - sep.len()]);
        }
    }
}

/// Joining keeps backslashes undoubled past the first two characters, when the base does not
/// end in one and the relative part does not start with one.
proof fn lemma_join_undoubled(base: Seq<char>, rel: Seq<char>, r: Seq<char>)
    requires
        crate::theme::no_doubled_from(base, 2),
        base.len() == 0 || base.last() != '\\',
        rel.len() > 0 && rel[0] != '\\',
        crate::theme::no_doubled_from(rel, 0),
        crate::theme::joined_path(base, rel, r),
    ensures
        crate::theme::no_doubled_from(r, 2),
        r.last() == rel.last(),
{
    let sep = choose|sep: Seq<char>|
        (sep == Seq::<char>::empty() || sep == seq!['/'] || sep == seq!['\\']) && r == base + sep + rel;
    let n = base.len() + sep.len();
    assert(r.last() == rel.last());
    assert forall|i: int| 2 <= i < r.len() - 1 implies !#[trigger] crate::theme::doubled_at(r, i) by {
        if i + 1 < base.len() {
            assert(r[i] == base[i] && r[i + 1] == base[i + 1]);
            assert(!crate::theme::doubled_at(base, i));
        } else if i + 1 == base.len() {
            assert(r[i] == base.last());
        } else if i < n {
            assert(r[i + 1] == rel[0]);
        } else {
            assert(r[i] == rel[i - n] && r[i + 1] == rel[i - n + 1]);
            assert(!crate::theme::doubled_at(rel, i - n));
        }
    }
}

/// A library path and game name for which every join step stays stated under a verbatim
/// library path: no `.` anywhere, no doubled backslash, no trailing backslash on the library,
/// and no `/` or trailing backslash in the game name.
pub open spec fn verbatim_library_plain(lib: Seq<char>, game: Seq<char>) -> bool {
    &&& !lib.contains('.')
    &&& crate::theme::no_doubled_from(lib, 2)
    &&& (lib.len() == 0 || lib.last() != '\\')
    &&& !game.contains('.')
    &&& !game.contains('/')
    &&& crate::theme::no_doubled_from(game, 0)
    &&& game.len() > 0 && game.last() != '\\'
}

/// The folder of game `game_name` inside Steam library `lib`. Stated for a plain relative game
/// name, with a library path without `?` (so never verbatim), or one that a verbatim join takes
/// as it is (`verbatim_library_plain`). For absolute, rooted or drive-prefixed names
/// `Path::join` follows rules that differ between platforms, which are not stated.
pub fn library_game_dir(lib: &str, game_name: &str) -> (r: String)
    ensures
        crate::theme::is_plain_relative(game_name@) && (!lib@.contains('?')
            || verbatim_library_plain(lib@, game_name@)) ==> game_dir_in(lib@, game_name@, r@),
{
    proof {
        reveal_strlit("steamapps");
        reveal_strlit("common");
    }
    let a = crate::theme::join_path(lib, "steamapps");
    let b = crate::theme::join_path(a.as_str(), "common");
    let r = crate::theme::join_path(b.as_str(), game_name);
    proof {
        let st = "steamapps"@;
        let co = "common"@;
        assert(st =~= seq!['s', 't', 'e', 'a', 'm', 'a', 'p', 'p', 's']);
        assert(co =~= seq!['c', 'o', 'm', 'm', 'o', 'n']);
        assert(crate::theme::is_plain_relative(st));
        assert(crate::theme::is_plain_relative(co));
        if crate::theme::is_plain_relative(game_name@) && !lib@.contains('?') {
            assert(!st.contains('?'));
            assert(!co.contains('?'));
            lemma_no_question_not_verbatim(lib@);
            lemma_join_lacks(lib@, st, a@, '?');
            lemma_no_question_not_verbatim(a@);
            lemma_join_lacks(a@, co, b@, '?');
            lemma_no_question_not_verbatim(b@);
        } else if crate::theme::is_plain_relative(game_name@) && verbatim_library_plain(lib@, game_name@) {
            assert(!st.contains('.') && !st.contains('/'));
            assert(!co.contains('.') && !co.contains('/'));
            assert(crate::theme::no_doubled_from(st, 0));
            assert(crate::theme::no_doubled_from(co, 0));
            assert(crate::theme::verbatim_join_plain(lib@, st));
            lemma_join_lacks(lib@, st, a@, '.');
            lemma_join_undoubled(lib@, st, a@);
            assert(crate::theme::verbatim_join_plain(a@, co));
            lemma_join_lacks(a@, co, b@, '.');
            lemma_join_undoubled(a@, co, b@);
            assert(crate::theme::verbatim_join_plain(b@, game_name@));
        }
    }
    r
}

/// Where closing a running game stands.
#[derive(Debug, Clone, Copy, PartialEq, Eq, Structural)]
pub enum CloseStage {
    /// Looking for the game's window.
    FindWindow,
    /// Asked the window to close; its owner is this process id.
    Posted(u32),
    /// Opening the game's process.
    Opening,
    /// Waiting for the process to exit.
    Waiting,
    /// Terminating the process, then waiting for it.
    Terminating,
    /// Closing the process handle.
    Closing,
    /// Giving the system a moment.
    Sleeping,
    Finished,
}

/// What came back from the work of the current stage.
#[derive(Debug, Clone, Copy, PartialEq, Eq, Structural)]
pub enum CloseEvent {
    /// The window search: the window's owning process id, or `None` when there is no window.
    Window(Option<u32>),
    Succeeded,
    Failed,
    Done,
}

/// The work to do next.
#[derive(Debug, Clone, Copy, PartialEq, Eq, Structural)]
pub enum CloseAction {
    FindWindow,
    /// Post `WM_CLOSE` to the window.
    PostClose,
    /// Open the process for synchronisation and termination.
    OpenProcess(u32),
    /// Wait up to this many milliseconds for the process to exit.
    WaitForExit(u32),
    /// Terminate the process, then wait up to this many milliseconds.
    TerminateAndWait(u32),
    CloseProcess,
    /// Sleep this many milliseconds.
    Sleep(u64),
    Done,
}

/// The step of closing the game from a stage on an event.
pub open spec fn close_transition(st: CloseStage, e: CloseEvent) -> (CloseStage, CloseAction) {
    match st {
        CloseStage::FindWindow => match e {
            CloseEvent::Window(Some(pid)) => (CloseStage::Posted(pid), CloseAction::PostClose),
            _ => (CloseStage::Finished, CloseAction::Done),
        },
        CloseStage::Posted(pid) => if pid == 0 {
            (CloseStage::Sleeping, CloseAction::Sleep(1400))
        } else {
            (CloseStage::Opening, CloseAction::OpenProcess(pid))
        },
        CloseStage::Opening => if e == CloseEvent::Succeeded {
            (CloseStage::Waiting, CloseAction::WaitForExit(3500))
        } else {
            (CloseStage::Sleeping, CloseAction::Sleep(1400))
        },
        CloseStage::Waiting => if e == CloseEvent::Succeeded {
            (CloseStage::Closing, CloseAction::CloseProcess)
        } else {
            (CloseStage::Terminating, CloseAction::TerminateAndWait(2000))
        },
        CloseStage::Terminating => (CloseStage::Closing, CloseAction::CloseProcess),
        CloseStage::Closing => (CloseStage::Sleeping, CloseAction::Sleep(700)),
        CloseStage::Sleeping => (CloseStage::Finished, CloseAction::Done),
        CloseStage::Finished => (CloseStage::Finished, CloseAction::Done),
    }
}

/// The first stage of closing the game, and its first action.
pub fn close_csgo_start() -> (r: (CloseStage, CloseAction))
    ensures
        r == (CloseStage::FindWindow, CloseAction::FindWindow),
{
    (CloseStage::FindWindow, CloseAction::FindWindow)
}

/// One step of closing a running game: ask its window to close, give the process 3.5 s to
/// exit, terminate it otherwise, then pause; when no window or no process is found, just pause.
pub fn close_csgo_step(st: CloseStage, e: CloseEvent) -> (r: (CloseStage, CloseAction))
    ensures
        r == close_transition(st, e),
{
    match st {
        CloseStage::FindWindow => match e {
            CloseEvent::Window(Some(pid)) => (CloseStage::Posted(pid), CloseAction::PostClose),
            _ => (CloseStage::Finished, CloseAction::Done),
        },
        CloseStage::Posted(pid) => if pid == 0 {
            (CloseStage::Sleeping, CloseAction::Sleep(1400))
        } else {
            (CloseStage::Opening, CloseAction::OpenProcess(pid))
        },
        CloseStage::Opening => if e == CloseEvent::Succeeded {
            (CloseStage::Waiting, CloseAction::WaitForExit(3500))
        } else {
            (CloseStage::Sleeping, CloseAction::Sleep(1400))
        },
        CloseStage::Waiting => if e == CloseEvent::Succeeded {
            (CloseStage::Closing, CloseAction::CloseProcess)
        } else {
            (CloseStage::Terminating, CloseAction::TerminateAndWait(2000))
        },
        CloseStage::Terminating => (CloseStage::Closing, CloseAction::CloseProcess),
        CloseStage::Closing => (CloseStage::Sleeping, CloseAction::Sleep(700)),
        CloseStage::Sleeping => (CloseStage::Finished, CloseAction::Done),
        CloseStage::Finished => (CloseStage::Finished, CloseAction::Done),
    }
}

/// How many steps at most are left from a stage.
pub open spec fn close_steps_left(st: CloseStage) -> nat {
    match st {
        CloseStage::FindWindow => 6,
        CloseStage::Posted(_) => 5,
        CloseStage::Opening => 4,
        CloseStage::Waiting => 3,
        CloseStage::Terminating => 2,
        CloseStage::Closing => 1,
        CloseStage::Sleeping => 0,
        CloseStage::Finished => 0,
    }
}

/// Closing the game always ends: each step before the end leaves fewer steps to go.
pub proof fn lemma_close_terminates(st: CloseStage, e: CloseEvent)
    requires
        st != CloseStage::Finished,
    ensures
        close_transition(st, e).0 == CloseStage::Finished || close_steps_left(close_transition(st, e).0)
            < close_steps_left(st),
{
}

/// Once the process is opened, its handle is closed within the next three steps whatever
/// happens, and the process is terminated only when it did not exit in time.
pub proof fn lemma_close_handle_released(e1: CloseEvent, e2: CloseEvent)
    ensures
        close_transition(CloseStage::Opening, CloseEvent::Succeeded).0 == CloseStage::Waiting,
        ({
            let (s1, a1) = close_transition(CloseStage::Waiting, e1);
            &&& (a1 == CloseAction::TerminateAndWait(2000) <==> e1 != CloseEvent::Succeeded)
            &&& (a1 == CloseAction::CloseProcess || close_transition(s1, e2).1 == CloseAction::CloseProcess)
        }),
{
}

} // verus!
