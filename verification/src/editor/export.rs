//! Naming an exported game: its folder, the folders of repeated exports, and the platform
//! line of the export dialog.
use vstd::prelude::*;
use crate::text::{append_decimal, decimal, string_from_chars};
use crate::text_scan::same_text;
use crate::text_scan::chars_of;

verus! {

/// Unicode control characters (general category Cc), as `char::is_control` tests.
pub open spec fn is_control(c: char) -> bool {
    (c as u32) <= 0x1F || (0x7F <= (c as u32) && (c as u32) <= 0x9F)
}

/// Characters that no common file system accepts in a name.
pub open spec fn is_forbidden(c: char) -> bool {
    c == '<' || c == '>' || c == ':' || c == '"' || c == '/' || c == '\\' || c == '|' || c
        == '?' || c == '*'
}

/// A character a folder name may neither start nor end with.
pub open spec fn is_edge(c: char) -> bool {
    c == ' ' || c == '.' || c == '-'
}

/// The character with every control or forbidden character replaced by `-`.
pub open spec fn cleaned_char(c: char) -> char {
    if is_control(c) || is_forbidden(c) {
        '-'
    } else {
        c
    }
}

/// ASCII letters in upper case, every other character unchanged.
pub open spec fn upper(c: char) -> char {
    if 'a' <= c && c <= 'z' {
        ((c as u32) - 32) as char
    } else {
        c
    }
}

/// The first position at or after `i` that is not an edge character, or the end.
pub open spec fn skip_edges(s: Seq<char>, i: int) -> int
    decreases s.len() - i,
{
    if i < 0 || i >= s.len() || !is_edge(s[i]) {
        i
    } else {
        skip_edges(s, i + 1)
    }
}

/// The end of `s[..j]` with trailing edge characters removed.
pub open spec fn drop_edges(s: Seq<char>, j: int) -> int
    decreases j,
{
    if j <= 0 || j > s.len() || !is_edge(s[j - 1]) {
        j
    } else {
        drop_edges(s, j - 1)
    }
}

/// The first `.` at or after `i`, or the end.
pub open spec fn dot_from(s: Seq<char>, i: int) -> int
    decreases s.len() - i,
{
    if i < 0 || i >= s.len() || s[i] == '.' {
        i
    } else {
        dot_from(s, i + 1)
    }
}

/// `s` without leading or trailing spaces, dots and dashes.
pub open spec fn trimmed(s: Seq<char>) -> Seq<char> {
    let a = skip_edges(s, 0);
    if a >= s.len() {
        seq![]
    } else {
        s.subrange(a, drop_edges(s, s.len() as int))
    }
}

/// Whether a name (up to its first dot, in upper case) is a device name Windows reserves.
pub open spec fn is_reserved(stem: Seq<char>) -> bool {
    let u = stem.map_values(|c: char| upper(c));
    ||| u == "CON"@
    ||| u == "PRN"@
    ||| u == "AUX"@
    ||| u == "NUL"@
    ||| u.len() == 4 && (u.take(3) == "COM"@ || u.take(3) == "LPT"@) && '1' <= u[3] && u[3] <= '9'
}

/// The folder an export of a game called `name` goes to: unsafe characters become `-`,
/// spaces, dots and dashes are trimmed from the ends, an empty result becomes `Game`, and
/// a reserved device name is prefixed with `Game - `.
pub open spec fn export_folder(name: Seq<char>) -> Seq<char> {
    let t = trimmed(name.map_values(|c: char| cleaned_char(c)));
    if t.len() == 0 {
        "Game"@
    } else if is_reserved(t.take(dot_from(t, 0))) {
        "Game - "@ + t
    } else {
        t
    }
}

proof fn lemma_skip_edges(s: Seq<char>, i: int)
    requires
        0 <= i <= s.len(),
    ensures
        i <= skip_edges(s, i) <= s.len(),
        skip_edges(s, i) < s.len() ==> !is_edge(s[skip_edges(s, i)]),
    decreases s.len() - i,
{
    if i < s.len() && is_edge(s[i]) {
        lemma_skip_edges(s, i + 1);
    }
}

proof fn lemma_drop_edges(s: Seq<char>, j: int, a: int)
    requires
        0 <= a < j <= s.len(),
        !is_edge(s[a]),
    ensures
        a < drop_edges(s, j) <= j,
    decreases j,
{
    if is_edge(s[j - 1]) {
        lemma_drop_edges(s, j - 1, a);
    }
}

proof fn lemma_dot_from(s: Seq<char>, i: int)
    requires
        0 <= i <= s.len(),
    ensures
        i <= dot_from(s, i) <= s.len(),
    decreases s.len() - i,
{
    if i < s.len() && s[i] != '.' {
        lemma_dot_from(s, i + 1);
    }
}

/// A folder name that any common file system takes as it is: not empty, no control or
/// forbidden character, no space, dot or dash at either end, and no reserved device name
/// before its first dot.
pub open spec fn safe_folder(r: Seq<char>) -> bool {
    &&& r.len() > 0
    &&& forall|k: int| 0 <= k < r.len() ==> !is_control(#[trigger] r[k]) && !is_forbidden(r[k])
    &&& !is_edge(r[0])
    &&& !is_edge(r[r.len() - 1])
    &&& !is_reserved(r.take(dot_from(r, 0)))
}

proof fn lemma_drop_edges_end(s: Seq<char>, j: int)
    requires
        0 <= j <= s.len(),
    ensures
        0 <= drop_edges(s, j) <= j,
        drop_edges(s, j) > 0 ==> !is_edge(s[drop_edges(s, j) - 1]),
    decreases j,
{
    if j > 0 && is_edge(s[j - 1]) {
        lemma_drop_edges_end(s, j - 1);
    }
}

proof fn lemma_dot_suffix(p: Seq<char>, t: Seq<char>, j: int)
    requires
        0 <= j <= t.len(),
    ensures
        dot_from(p + t, p.len() + j) == p.len() + dot_from(t, j),
    decreases t.len() - j,
{
    if j < t.len() && t[j] != '.' {
        assert((p + t)[p.len() + j] == t[j]);
        lemma_dot_suffix(p, t, j + 1);
    } else if j < t.len() {
        assert((p + t)[p.len() + j] == t[j]);
    }
}

proof fn lemma_dot_prefix(p: Seq<char>, t: Seq<char>, i: int)
    requires
        0 <= i <= p.len(),
        forall|k: int| i <= k < p.len() ==> #[trigger] p[k] != '.',
    ensures
        dot_from(p + t, i) == p.len() + dot_from(t, 0),
    decreases p.len() - i,
{
    if i < p.len() {
        assert((p + t)[i] == p[i]);
        lemma_dot_prefix(p, t, i + 1);
    } else {
        lemma_dot_suffix(p, t, 0);
    }
}

proof fn lemma_reserved_short(stem: Seq<char>)
    ensures
        is_reserved(stem) ==> stem.len() == 3 || stem.len() == 4,
{
    reveal_strlit("CON");
    reveal_strlit("PRN");
    reveal_strlit("AUX");
    reveal_strlit("NUL");
    let u = stem.map_values(|c: char| upper(c));
    assert(u.len() == stem.len());
}

proof fn lemma_game_not_reserved()
    ensures
        safe_folder("Game"@),
{
    reveal_strlit("Game");
    reveal_strlit("CON");
    reveal_strlit("PRN");
    reveal_strlit("AUX");
    reveal_strlit("NUL");
    reveal_strlit("COM");
    reveal_strlit("LPT");
    let g = "Game"@;
    assert(dot_from(g, 0) == 4) by {
        assert(dot_from(g, 4) == 4);
        assert(dot_from(g, 3) == 4);
        assert(dot_from(g, 2) == 4);
        assert(dot_from(g, 1) == 4);
    }
    assert(g.take(4) =~= g);
    let u = g.map_values(|c: char| upper(c));
    assert(u[0] == 'G');
    assert(u.take(3)[0] == 'G');
    assert(u.take(3) != "COM"@);
    assert(u.take(3) != "LPT"@);
}

/// Every folder `folder_name` gives is safe on any common file system, and naming it again
/// gives it back unchanged.
pub proof fn lemma_export_folder_safe(name: Seq<char>)
    ensures
        safe_folder(export_folder(name)),
        export_folder(export_folder(name)) == export_folder(name),
{
    let s = name.map_values(|c: char| cleaned_char(c));
    let t = trimmed(s);
    let r = export_folder(name);
    lemma_skip_edges(s, 0);
    let a = skip_edges(s, 0);
    if t.len() == 0 {
        lemma_game_not_reserved();
    } else {
        lemma_drop_edges(s, s.len() as int, a);
        lemma_drop_edges_end(s, s.len() as int);
        let b = drop_edges(s, s.len() as int);
        assert(t == s.subrange(a, b));
        assert forall|k: int| 0 <= k < t.len() implies !is_control(#[trigger] t[k]) && !is_forbidden(t[k]) by {
            assert(t[k] == s[a + k]);
            assert(s[a + k] == cleaned_char(name[a + k]));
        }
        assert(t[0] == s[a]);
        assert(t[t.len() - 1] == s[b - 1]);
        if is_reserved(t.take(dot_from(t, 0))) {
            reveal_strlit("Game - ");
            let p = "Game - "@;
            assert(r == p + t);
            assert forall|k: int| 0 <= k < p.len() implies #[trigger] p[k] != '.' by {}
            lemma_dot_prefix(p, t, 0);
            lemma_reserved_short(r.take(dot_from(r, 0)));
            lemma_dot_from(t, 0);
            assert forall|k: int| 0 <= k < r.len() implies !is_control(#[trigger] r[k]) && !is_forbidden(r[k]) by {
                if k >= p.len() {
                    assert(r[k] == t[k - p.len()]);
                }
            }
            assert(r[r.len() - 1] == t[t.len() - 1]);
        }
    }
    // Naming a safe folder again changes nothing.
    let s2 = r.map_values(|c: char| cleaned_char(c));
    assert(s2 =~= r);
    assert(skip_edges(r, 0) == 0);
    assert(drop_edges(r, r.len() as int) == r.len());
    assert(trimmed(r) =~= r);
}

fn upper_char(c: char) -> (u: char)
    ensures
        u == upper(c),
{
    if 'a' <= c && c <= 'z' {
        (((c as u32) - 32) as u8) as char
    } else {
        c
    }
}

fn is_edge_char(c: char) -> (r: bool)
    ensures
        r == is_edge(c),
{
    c == ' ' || c == '.' || c == '-'
}

/// Whether `s[a..b]`, in upper case, spells `word`.
fn upper_matches(s: &Vec<char>, a: usize, b: usize, word: &str) -> (r: bool)
    requires
        a <= b <= s@.len(),
    ensures
        r == (s@.subrange(a as int, b as int).map_values(|c: char| upper(c)) == word@),
{
    let n = word.unicode_len();
    let ghost u = s@.subrange(a as int, b as int).map_values(|c: char| upper(c));
    if b - a != n {
        assert(u.len() != word@.len());
        return false;
    }
    let mut k: usize = 0;
    while k < n
        invariant
            n == word@.len(),
            b - a == n,
            a <= b <= s@.len(),
            u == s@.subrange(a as int, b as int).map_values(|c: char| upper(c)),
            k <= n,
            forall|j: int| 0 <= j < k ==> u[j] == word@[j],
        decreases n - k,
    {
        if upper_char(s[a + k]) != word.get_char(k) {
            assert(u[k as int] == upper(s@[a + k]));
            return false;
        }
        k += 1;
    }
    assert(u =~= word@);
    true
}

pub fn folder_name(name: &str) -> (folder: String)
    ensures
        folder@ == export_folder(name@),
{
    let chars = chars_of(name);
    let mut clean: Vec<char> = Vec::new();
    let mut i: usize = 0;
    while i < chars.len()
        invariant
            i <= chars@.len(),
            clean@ == chars@.subrange(0, i as int).map_values(|c: char| cleaned_char(c)),
        decreases chars@.len() - i,
    {
        let c = chars[i];
        let v = c as u32;
        let bad = v <= 0x1F || (0x7F <= v && v <= 0x9F) || c == '<' || c == '>' || c == ':' || c
            == '"' || c == '/' || c == '\\' || c == '|' || c == '?' || c == '*';
        clean.push(if bad {
            '-'
        } else {
            c
        });
        i += 1;
        assert(clean@ =~= chars@.subrange(0, i as int).map_values(|c: char| cleaned_char(c)));
    }
    assert(chars@.subrange(0, chars@.len() as int) =~= chars@);
    let ghost s = clean@;
    assert(s == name@.map_values(|c: char| cleaned_char(c)));
    let n = clean.len();
    let mut start: usize = 0;
    while start < n && is_edge_char(clean[start])
        invariant
            n == s.len(),
            s == clean@,
            start <= n,
            skip_edges(s, 0) == skip_edges(s, start as int),
        decreases n - start,
    {
        start += 1;
    }
    if start == n {
        return String::from_str("Game");
    }
    proof {
        lemma_skip_edges(s, 0);
        lemma_drop_edges(s, n as int, start as int);
    }
    let mut end: usize = n;
    while end > start && is_edge_char(clean[end - 1])
        invariant
            n == s.len(),
            s == clean@,
            start < end <= n,
            !is_edge(s[start as int]),
            drop_edges(s, n as int) == drop_edges(s, end as int),
        decreases end,
    {
        end -= 1;
    }
    let mut trimmed_chars: Vec<char> = Vec::new();
    let mut k = start;
    while k < end
        invariant
            n == s.len(),
            s == clean@,
            start <= k <= end <= n,
            trimmed_chars@ == s.subrange(start as int, k as int),
        decreases end - k,
    {
        trimmed_chars.push(clean[k]);
        k += 1;
        assert(trimmed_chars@ =~= s.subrange(start as int, k as int));
    }
    let ghost t = trimmed_chars@;
    assert(t == trimmed(s));
    let m = trimmed_chars.len();
    let mut dot: usize = 0;
    while dot < m && trimmed_chars[dot] != '.'
        invariant
            m == t.len(),
            t == trimmed_chars@,
            dot <= m,
            dot_from(t, 0) == dot_from(t, dot as int),
        decreases m - dot,
    {
        dot += 1;
    }
    let ghost u = t.take(dot as int).map_values(|c: char| upper(c));
    assert(t.subrange(0, dot as int) =~= t.take(dot as int));
    let mut reserved = upper_matches(&trimmed_chars, 0, dot, "CON") || upper_matches(
        &trimmed_chars,
        0,
        dot,
        "PRN",
    ) || upper_matches(&trimmed_chars, 0, dot, "AUX") || upper_matches(
        &trimmed_chars,
        0,
        dot,
        "NUL",
    );
    if !reserved && dot == 4 {
        let fourth = upper_char(trimmed_chars[3]);
        proof {
            assert(u.take(3) =~= t.subrange(0, 3).map_values(|c: char| upper(c)));
            assert(u[3] == fourth);
        }
        reserved = (upper_matches(&trimmed_chars, 0, 3, "COM") || upper_matches(
            &trimmed_chars,
            0,
            3,
            "LPT",
        )) && '1' <= fourth && fourth <= '9';
    }
    let body = string_from_chars(trimmed_chars.as_slice());
    if reserved {
        let mut folder = String::from_str("Game - ");
        folder.append(body.as_str());
        folder
    } else {
        body
    }
}

/// The `number`th folder an export of the game `name` may use: the cleaned name, then the
/// name followed by ` (2)`, ` (3)` and so on; past ten thousand there is none.
pub open spec fn export_candidate(name: Seq<char>, number: u32) -> Option<Seq<char>> {
    if number == 1 {
        Some(export_folder(name))
    } else if 2 <= number <= 10_000 {
        Some(export_folder(name) + " ("@ + decimal(number as nat) + ")"@)
    } else {
        None
    }
}

/// The `number`th folder name to try for an export of the game `name` (the caller tries
/// them in order from 1 and takes the first that does not exist yet).
pub fn candidate_folder(name: &str, number: u32) -> (candidate: Option<String>)
    ensures
        match export_candidate(name@, number) {
            Some(c) => candidate matches Some(s) && s@ == c,
            None => candidate is None,
        },
{
    if number == 0 || number > 10_000 {
        return None;
    }
    let mut folder = folder_name(name);
    if number > 1 {
        folder.append(" (");
        append_decimal(&mut folder, number as u64);
        folder.append(")");
    }
    Some(folder)
}

/// The platform line of the export dialog, from Rust's names for the operating system and
/// the processor (`macos` tells whether the target is macOS).
pub open spec fn platform(os: Seq<char>, arch: Seq<char>, macos: bool) -> Seq<char> {
    let o = if os == "macos"@ {
        "macOS"@
    } else if os == "windows"@ {
        "Windows"@
    } else if os == "linux"@ {
        "Linux"@
    } else {
        os
    };
    let a = if arch == "aarch64"@ {
        if macos {
            "Apple Silicon"@
        } else {
            "ARM64"@
        }
    } else if arch == "x86_64"@ {
        "x64"@
    } else {
        arch
    };
    o + " · "@ + a
}

pub fn platform_label(os: &str, arch: &str, macos: bool) -> (label: String)
    ensures
        label@ == platform(os@, arch@, macos),
{
    let mut label = String::from_str(
        if same_text(os, "macos") {
            "macOS"
        } else if same_text(os, "windows") {
            "Windows"
        } else if same_text(os, "linux") {
            "Linux"
        } else {
            os
        },
    );
    label.append(" · ");
    label.append(
        if same_text(arch, "aarch64") {
            if macos {
                "Apple Silicon"
            } else {
                "ARM64"
            }
        } else if same_text(arch, "x86_64") {
            "x64"
        } else {
            arch
        },
    );
    label
}

} // verus!
