//! The project registry: one line of the user's shell startup file that
//! names the active project directory after a fixed marker.

use vstd::prelude::*;
use vstd::string::*;

use crate::paths::join_path;
use crate::profile::{config_path_of, BinError};

verus! {

/// The marker that introduces the registered project path.
pub open spec fn marker() -> Seq<char> {
    "STB_PROJECT_PATH="@
}

/// Whether the marker starts at position `k` of `line`.
pub open spec fn marker_at(line: Seq<char>, k: int) -> bool {
    &&& 0 <= k
    &&& k + marker().len() <= line.len()
    &&& line.subrange(k, k + marker().len()) == marker()
}

/// Whether `line` holds the marker.
pub open spec fn has_marker(line: Seq<char>) -> bool {
    exists|k: int| marker_at(line, k)
}

/// Where the marker first starts in `line`.
pub open spec fn first_marker(line: Seq<char>) -> int {
    choose|k: int| marker_at(line, k) && forall|j: int| 0 <= j < k ==> !marker_at(line, j)
}

/// The characters of `s` before its first double quote.
pub open spec fn before_quote(s: Seq<char>) -> Seq<char>
    decreases s.len(),
{
    if s.len() == 0 || s[0] == '"' {
        Seq::empty()
    } else {
        seq![s[0]] + before_quote(s.drop_first())
    }
}

/// The path that the text following a marker declares: what stands between
/// the quotes when the text opens with one, else all of it.
pub open spec fn unquoted(rest: Seq<char>) -> Seq<char> {
    if rest.len() > 0 && rest[0] == '"' {
        before_quote(rest.drop_first())
    } else {
        rest
    }
}

/// The path that a line holding the marker declares.
pub open spec fn declared_path(line: Seq<char>) -> Seq<char> {
    unquoted(line.subrange(first_marker(line) + marker().len(), line.len() as int))
}

/// The project path registered by the last of `lines` that holds the marker.
pub open spec fn registered(lines: Seq<String>) -> Option<Seq<char>>
    decreases lines.len(),
{
    if lines.len() == 0 {
        None
    } else if has_marker(lines.last()@) {
        Some(declared_path(lines.last()@))
    } else {
        registered(lines.drop_last())
    }
}

/// The lines, in order, that hold no marker.
pub open spec fn without_registration(lines: Seq<String>) -> Seq<String>
    decreases lines.len(),
{
    if lines.len() == 0 {
        Seq::empty()
    } else {
        let prev = without_registration(lines.drop_last());
        if has_marker(lines.last()@) {
            prev
        } else {
            prev.push(lines.last())
        }
    }
}

/// The line that registers the project at `path`.
pub open spec fn registration_line_of(path: Seq<char>) -> Seq<char> {
    "export "@ + marker() + "\""@ + path + "\" # send to bin project path"@
}

/// Where the marker first starts in `line`, if anywhere.
pub fn find_marker(line: &String) -> (r: Option<usize>)
    ensures
        r is None <==> !has_marker(line@),
        r matches Some(k) ==> k == first_marker(line@) && marker_at(line@, k as int),
{
    let wanted = String::from_str("STB_PROJECT_PATH=");
    let m = wanted.as_str().unicode_len();
    let n = line.as_str().unicode_len();
    if n < m {
        return None;
    }
    let mut k: usize = 0;
    loop
        invariant
            m == wanted@.len(),
            wanted@ == marker(),
            n == line@.len(),
            m <= n,
            k <= n - m,
            forall|j: int| 0 <= j < k ==> !marker_at(line@, j),
        decreases n - m - k,
    {
        let part = String::from_str(line.as_str().substring_char(k, k + m));
        if part == wanted {
            proof {
                assert(marker_at(line@, k as int));
                let f = first_marker(line@);
                assert(marker_at(line@, f) && forall|j: int| 0 <= j < f ==> !marker_at(line@, j));
            }
            return Some(k);
        }
        if k == n - m {
            return None;
        }
        k = k + 1;
    }
}

/// The characters of `s` before its first double quote.
fn take_until_quote(s: &str) -> (r: String)
    ensures
        r@ == before_quote(s@),
{
    let n = s.unicode_len();
    let mut j: usize = 0;
    proof {
        assert(s@.subrange(0, n as int) =~= s@);
        assert(s@.subrange(0, 0) + s@ =~= s@);
    }
    while j < n && s.get_char(j) != '"'
        invariant
            j <= n,
            n == s@.len(),
            before_quote(s@) == s@.subrange(0, j as int) + before_quote(s@.subrange(j as int, n as int)),
        decreases n - j,
    {
        proof {
            let t = s@.subrange(j as int, n as int);
            assert(t.drop_first() =~= s@.subrange(j + 1, n as int));
            assert(s@.subrange(0, j + 1) =~= s@.subrange(0, j as int) + seq![t[0]]);
            assert(s@.subrange(0, j as int) + (seq![t[0]] + before_quote(t.drop_first()))
                =~= s@.subrange(0, j + 1) + before_quote(t.drop_first()));
        }
        j = j + 1;
    }
    proof {
        assert(before_quote(s@.subrange(j as int, n as int)) =~= Seq::<char>::empty());
        assert(s@.subrange(0, j as int) + Seq::<char>::empty() =~= s@.subrange(0, j as int));
    }
    String::from_str(s.substring_char(0, j))
}

/// The path that a line holding the marker declares.
fn read_declared(line: &String, k: usize) -> (r: String)
    requires
        k == first_marker(line@),
        marker_at(line@, k as int),
    ensures
        r@ == declared_path(line@),
{
    let n = line.as_str().unicode_len();
    let m = String::from_str("STB_PROJECT_PATH=").as_str().unicode_len();
    let rest = line.as_str().substring_char(k + m, n);
    if rest.unicode_len() > 0 && rest.get_char(0) == '"' {
        let inner = rest.substring_char(1, rest.unicode_len());
        proof {
            assert(inner@ =~= rest@.drop_first());
        }
        take_until_quote(inner)
    } else {
        String::from_str(rest)
    }
}

/// Finds the registered project path in the lines of the startup file: the
/// path declared by the last line that holds the marker.
pub fn find_registration(lines: &Vec<String>) -> (r: Option<String>)
    ensures
        r is None <==> registered(lines@) is None,
        r matches Some(p) ==> registered(lines@) == Some(p@),
{
    let mut i: usize = lines.len();
    proof {
        assert(lines@.subrange(0, i as int) =~= lines@);
    }
    while i > 0
        invariant
            i <= lines@.len(),
            registered(lines@) == registered(lines@.subrange(0, i as int)),
        decreases i,
    {
        proof {
            assert(lines@.subrange(0, i as int).drop_last() =~= lines@.subrange(0, i - 1));
        }
        match find_marker(&lines[i - 1]) {
            Some(k) => {
                return Some(read_declared(&lines[i - 1], k));
            },
            None => {},
        }
        i = i - 1;
    }
    proof {
        assert(lines@.subrange(0, 0) =~= Seq::<String>::empty());
    }
    None
}

/// The startup-file line that registers the project at `path`.
pub fn registration_line(path: &str) -> (r: String)
    ensures
        r@ == registration_line_of(path@),
{
    let mut r = String::from_str("export ");
    r.append("STB_PROJECT_PATH=");
    r.append("\"");
    r.append(path);
    r.append("\" # send to bin project path");
    r
}

/// The startup file's lines with every registration line taken out.
pub fn unregistered_lines(lines: &Vec<String>) -> (r: Vec<String>)
    ensures
        r@.len() == without_registration(lines@).len(),
        forall|i: int| 0 <= i < r@.len() ==> #[trigger] r@[i]@ == without_registration(lines@)[i]@,
        registered(r@) is None,
{
    let mut r: Vec<String> = Vec::new();
    let mut i: usize = 0;
    while i < lines.len()
        invariant
            i <= lines@.len(),
            r@.len() == without_registration(lines@.subrange(0, i as int)).len(),
            forall|k: int| 0 <= k < r@.len() ==> #[trigger] r@[k]@ == without_registration(lines@.subrange(0, i as int))[k]@,
            forall|k: int| 0 <= k < r@.len() ==> !has_marker(#[trigger] r@[k]@),
        decreases lines@.len() - i,
    {
        proof {
            assert(lines@.subrange(0, i + 1).drop_last() =~= lines@.subrange(0, i as int));
        }
        if find_marker(&lines[i]).is_none() {
            r.push(lines[i].clone());
        }
        i = i + 1;
    }
    proof {
        assert(lines@.subrange(0, i as int) =~= lines@);
        lemma_no_marker_unregistered(r@);
    }
    r
}

/// Lines without a marker register nothing.
proof fn lemma_no_marker_unregistered(lines: Seq<String>)
    requires
        forall|k: int| 0 <= k < lines.len() ==> !has_marker(#[trigger] lines[k]@),
    ensures
        registered(lines) is None,
    decreases lines.len(),
{
    if lines.len() > 0 {
        lemma_no_marker_unregistered(lines.drop_last());
    }
}

/// Where the config file is: under `project_override` when given, else
/// under the registered project. Fails with `NotInitialized` when neither
/// exists.
pub fn locate_config(startup_lines: &Vec<String>, project_override: Option<String>) -> (r: Result<
    String,
    BinError,
>)
    ensures
        project_override matches Some(d) ==> r matches Ok(c) && c@ == config_path_of(d@),
        project_override is None ==> match registered(startup_lines@) {
            Some(d) => r matches Ok(c) && c@ == config_path_of(d),
            None => r matches Err(e) && e == BinError::NotInitialized,
        },
{
    let dir = match project_override {
        Some(d) => d,
        None => match find_registration(startup_lines) {
            Some(d) => d,
            None => {
                return Err(BinError::NotInitialized);
            },
        },
    };
    Ok(join_path(dir.as_str(), "config.json"))
}

/// A registration line holds the marker, so once it is appended the
/// registry is no longer empty; and it declares the path it was made for
/// when that path holds no double quote.
pub proof fn lemma_registration_found(lines: Seq<String>, line: String, path: Seq<char>)
    requires
        line@ == registration_line_of(path),
    ensures
        registered(lines.push(line)) is Some,
        (forall|i: int| 0 <= i < path.len() ==> path[i] != '"') ==> registered(lines.push(line))
            == Some(path),
{
    reveal_strlit("export ");
    reveal_strlit("STB_PROJECT_PATH=");
    reveal_strlit("\"");
    let l = line@;
    let all = lines.push(line);
    assert(all.drop_last() =~= lines);
    assert(l.subrange(7, 7 + marker().len() as int) =~= marker());
    assert(marker_at(l, 7));
    assert forall|j: int| 0 <= j < 7 implies !marker_at(l, j) by {
        if marker_at(l, j) {
            assert(l.subrange(j, j + marker().len())[0] == marker()[0]);
        }
    }
    let f = first_marker(l);
    assert(marker_at(l, f) && forall|j: int| 0 <= j < f ==> !marker_at(l, j));
    if f < 7 {
    } else if f > 7 {
        assert(!marker_at(l, 7));
    }
    assert(f == 7);
    if forall|i: int| 0 <= i < path.len() ==> path[i] != '"' {
        let rest = l.subrange(7 + marker().len() as int, l.len() as int);
        assert(rest[0] == '"');
        let tail: Seq<char> = "\" # send to bin project path"@;
        reveal_strlit("\" # send to bin project path");
        assert(rest.drop_first() =~= path + tail);
        lemma_before_quote_prefix(path, tail);
    }
}

/// Text without a double quote, followed by one, is what `before_quote` reads.
proof fn lemma_before_quote_prefix(p: Seq<char>, tail: Seq<char>)
    requires
        forall|i: int| 0 <= i < p.len() ==> p[i] != '"',
        tail.len() > 0 && tail[0] == '"',
    ensures
        before_quote(p + tail) == p,
    decreases p.len(),
{
    if p.len() == 0 {
        assert(p + tail =~= tail);
    } else {
        assert((p + tail).drop_first() =~= p.drop_first() + tail);
        lemma_before_quote_prefix(p.drop_first(), tail);
        assert(p =~= seq![p[0]] + p.drop_first());
    }
}

} // verus!
