//! File names in text form. Where the machine does not run Windows, a slash
//! stands between the parts of a path. On Windows a backslash may stand there
//! too, and a prefix may come before the parts: a drive such as `C:`, a share
//! such as `\\server\share`, a device such as `\\.\COM1`, or one of those
//! after `\\?\`, which makes the path verbatim: slashes and single full stops
//! then have no special meaning.

use vstd::prelude::*;
use crate::split::{join as join_parts, joined, nonempty, pieces, split};
use crate::text::{alphanumeric, chars, digit, extend, is_alphanumeric, is_digit, part, string, texts};

verus! {

/// Whether a path starts at the root of the file system.
pub open spec fn absolute(path: Seq<char>) -> bool {
    path.len() > 0 && path[0] == '/'
}

/// The path `name` as seen from the directory `base`.
pub open spec fn join_path(base: Seq<char>, name: Seq<char>) -> Seq<char> {
    if absolute(name) {
        name
    } else if base.len() > 0 && base.last() != '/' {
        base.push('/') + name
    } else {
        base + name
    }
}

/// The path `name` as seen from the directory `base`.
pub fn join(base: &str, name: &str) -> (r: String)
    ensures
        r@ == join_path(base@, name@),
{
    let name = chars(name);
    if name.len() > 0 && name[0] == '/' {
        return string(name.as_slice());
    }
    let mut out = chars(base);
    let n: usize = out.len();
    if n > 0 && out[n - 1] != '/' {
        out.push('/');
    }
    extend(&mut out, name.as_slice());
    string(out.as_slice())
}

// ---------------------------------------------------------------------------
// Prefixes on Windows

/// What divides the parts of a path.
#[derive(Clone, Copy, Debug, PartialEq, Eq, Structural)]
pub enum PathStyle {
    /// Slashes.
    Slashes,
    /// Slashes and backslashes.
    Windows,
    /// Backslashes.
    Verbatim,
}

/// Whether a character divides the parts of a path.
pub open spec fn divides(c: char, style: PathStyle) -> bool {
    match style {
        PathStyle::Slashes => c == '/',
        PathStyle::Windows => c == '/' || c == '\\',
        PathStyle::Verbatim => c == '\\',
    }
}

/// Whether a character divides the parts of a path.
fn is_divider(c: char, style: PathStyle) -> (r: bool)
    ensures
        r == divides(c, style),
{
    match style {
        PathStyle::Slashes => c == '/',
        PathStyle::Windows => c == '/' || c == '\\',
        PathStyle::Verbatim => c == '\\',
    }
}

/// Whether a character is a slash or a backslash.
pub open spec fn slash(c: char) -> bool {
    divides(c, PathStyle::Windows)
}

/// Where the part that begins at `from` ends.
pub open spec fn part_end(path: Seq<char>, from: int, style: PathStyle) -> int
    decreases path.len() - from,
{
    if from < 0 || from >= path.len() {
        path.len() as int
    } else if divides(path[from], style) {
        from
    } else {
        part_end(path, from + 1, style)
    }
}

/// Where the part that begins at `from` ends.
fn find_part_end(path: &[char], from: usize, style: PathStyle) -> (r: usize)
    requires
        from <= path@.len(),
    ensures
        r == part_end(path@, from as int, style),
        from <= r <= path@.len(),
{
    let mut i: usize = from;
    while i < path.len() && !is_divider(path[i], style)
        invariant
            from <= i <= path@.len(),
            part_end(path@, from as int, style) == part_end(path@, i as int, style),
        decreases path@.len() - i,
    {
        i += 1;
    }
    i
}

/// Where the name of a share ends that follows the name of a server, which
/// begins at `from`; without a share, where the name of the server ends.
pub open spec fn share_end(path: Seq<char>, from: int, style: PathStyle) -> int {
    let server = part_end(path, from, style);
    let share = part_end(path, server + 1, style);
    if server < path.len() && share > server + 1 {
        share
    } else {
        server
    }
}

/// Where the name of a share ends.
fn find_share_end(path: &[char], from: usize, style: PathStyle) -> (r: usize)
    requires
        from <= path@.len(),
    ensures
        r == share_end(path@, from as int, style),
        from <= r <= path@.len(),
{
    let server = find_part_end(path, from, style);
    if server < path.len() {
        let share = find_part_end(path, server + 1, style);
        if share > server + 1 {
            return share;
        }
    }
    server
}

/// Whether a drive such as `C:` stands in `path` at `at`.
pub open spec fn drive_at(path: Seq<char>, at: int) -> bool {
    &&& at + 2 <= path.len()
    &&& alphanumeric(path[at]) && !digit(path[at])
    &&& path[at + 1] == ':'
}

/// Whether a drive such as `C:` stands in `path` at `at`.
fn is_drive_at(path: &[char], at: usize) -> (r: bool)
    requires
        at <= path@.len(),
    ensures
        r == drive_at(path@, at as int),
{
    path.len() - at >= 2 && is_alphanumeric(path[at]) && !is_digit(path[at]) && path[at + 1] == ':'
}

/// What comes before the parts of a path on Windows.
#[derive(Clone, Copy, Debug, PartialEq, Eq, Structural)]
pub struct PathPrefix {
    /// How many characters belong to it.
    pub size: usize,
    /// Whether it is a drive and nothing more.
    pub drive: bool,
    /// Whether it makes the path verbatim.
    pub verbatim: bool,
}

/// The model of what comes before the parts.
pub struct PrefixView {
    pub size: int,
    pub drive: bool,
    pub verbatim: bool,
}

impl View for PathPrefix {
    type V = PrefixView;

    open spec fn view(&self) -> PrefixView {
        PrefixView { size: self.size as int, drive: self.drive, verbatim: self.verbatim }
    }
}

/// The prefix of a path that begins with `\\?\`.
pub open spec fn verbatim_prefix(path: Seq<char>) -> PrefixView {
    let size = if path.len() >= 8 && path[4] == 'U' && path[5] == 'N' && path[6] == 'C' && slash(
        path[7],
    ) {
        share_end(path, 8, PathStyle::Verbatim)
    } else if drive_at(path, 4) && (path.len() == 6 || slash(path[6])) {
        6
    } else {
        part_end(path, 4, PathStyle::Verbatim)
    };
    PrefixView { size, drive: false, verbatim: true }
}

/// Whether a path begins with `\\?\`, without slashes.
pub open spec fn begins_verbatim(path: Seq<char>) -> bool {
    path.len() >= 4 && path[0] == '\\' && path[1] == '\\' && path[2] == '?' && path[3] == '\\'
}

/// The prefix of a path on Windows.
#[verifier::opaque]
pub open spec fn windows_prefix(path: Seq<char>) -> Option<PrefixView> {
    if path.len() >= 2 && slash(path[0]) && slash(path[1]) {
        if begins_verbatim(path) {
            Some(verbatim_prefix(path))
        } else if path.len() >= 4 && path[2] == '.' && slash(path[3]) {
            Some(
                PrefixView {
                    size: part_end(path, 4, PathStyle::Windows),
                    drive: false,
                    verbatim: false,
                },
            )
        } else {
            let server = part_end(path, 2, PathStyle::Windows);
            let end = share_end(path, 2, PathStyle::Windows);
            if server > 2 && end > server {
                Some(PrefixView { size: end, drive: false, verbatim: false })
            } else {
                None
            }
        }
    } else if drive_at(path, 0) {
        Some(PrefixView { size: 2, drive: true, verbatim: false })
    } else {
        None
    }
}

/// The prefix of a path on Windows.
fn read_prefix(path: &[char]) -> (r: Option<PathPrefix>)
    ensures
        match r {
            Some(prefix) => windows_prefix(path@) == Some(prefix@) && prefix.size <= path@.len(),
            None => windows_prefix(path@) is None,
        },
{
    proof {
        reveal(windows_prefix);
    }
    let n: usize = path.len();
    if n >= 2 && is_divider(path[0], PathStyle::Windows) && is_divider(path[1], PathStyle::Windows) {
        if n >= 4 && path[0] == '\\' && path[1] == '\\' && path[2] == '?' && path[3] == '\\' {
            let size: usize = if n >= 8 && path[4] == 'U' && path[5] == 'N' && path[6] == 'C'
                && is_divider(path[7], PathStyle::Windows) {
                find_share_end(path, 8, PathStyle::Verbatim)
            } else if is_drive_at(path, 4) && (n == 6 || is_divider(path[6], PathStyle::Windows)) {
                6
            } else {
                find_part_end(path, 4, PathStyle::Verbatim)
            };
            return Some(PathPrefix { size, drive: false, verbatim: true });
        }
        if n >= 4 && path[2] == '.' && is_divider(path[3], PathStyle::Windows) {
            let size = find_part_end(path, 4, PathStyle::Windows);
            return Some(PathPrefix { size, drive: false, verbatim: false });
        }
        let server = find_part_end(path, 2, PathStyle::Windows);
        let size = find_share_end(path, 2, PathStyle::Windows);
        if server > 2 && size > server {
            return Some(PathPrefix { size, drive: false, verbatim: false });
        }
        return None;
    }
    if is_drive_at(path, 0) {
        return Some(PathPrefix { size: 2, drive: true, verbatim: false });
    }
    None
}

/// What divides the parts of a path.
pub open spec fn path_style(path: Seq<char>, windows: bool) -> PathStyle {
    if !windows {
        PathStyle::Slashes
    } else {
        match windows_prefix(path) {
            Some(prefix) if prefix.verbatim => PathStyle::Verbatim,
            _ => PathStyle::Windows,
        }
    }
}

/// Whether a path has a root after its first `size` characters.
pub open spec fn rooted(path: Seq<char>, size: int) -> bool {
    path.len() > size && slash(path[size])
}

/// Where the parts of a path begin: after its prefix and the slash of its
/// root. Behind a drive without a root, a part `.` does not count.
pub open spec fn body_start(path: Seq<char>, windows: bool) -> int {
    if !windows {
        if absolute(path) {
            1
        } else {
            0
        }
    } else {
        match windows_prefix(path) {
            None => if rooted(path, 0) {
                1
            } else {
                0
            },
            Some(prefix) => if rooted(path, prefix.size) || prefix.drive && path.len()
                > prefix.size && path[prefix.size] == '.' && (path.len() == prefix.size + 1
                || slash(path[prefix.size + 1])) {
                prefix.size + 1
            } else {
                prefix.size
            },
        }
    }
}

/// What divides the parts of a path, and where they begin.
fn read_start(path: &[char], windows: bool) -> (r: (PathStyle, usize))
    ensures
        r.0 == path_style(path@, windows),
        r.1 == body_start(path@, windows),
        r.1 <= path@.len(),
{
    let n: usize = path.len();
    if !windows {
        if n > 0 && path[0] == '/' {
            (PathStyle::Slashes, 1)
        } else {
            (PathStyle::Slashes, 0)
        }
    } else {
        match read_prefix(path) {
            None => if n > 0 && is_divider(path[0], PathStyle::Windows) {
                (PathStyle::Windows, 1)
            } else {
                (PathStyle::Windows, 0)
            },
            Some(prefix) => {
                let size = prefix.size;
                let style = if prefix.verbatim {
                    PathStyle::Verbatim
                } else {
                    PathStyle::Windows
                };
                let root = n > size && is_divider(path[size], PathStyle::Windows);
                let here = prefix.drive && n > size && path[size] == '.' && (n == size + 1
                    || is_divider(path[size + 1], PathStyle::Windows));
                if root || here {
                    (style, size + 1)
                } else {
                    (style, size)
                }
            },
        }
    }
}

/// Whether a path does not depend on any directory, or on Windows also on any
/// drive.
pub open spec fn absolute_on(path: Seq<char>, windows: bool) -> bool {
    if windows {
        match windows_prefix(path) {
            Some(prefix) => !prefix.drive || rooted(path, prefix.size),
            None => false,
        }
    } else {
        absolute(path)
    }
}

/// Whether a path does not depend on any directory, or on Windows also on any
/// drive.
pub fn is_absolute(path: &str, windows: bool) -> (r: bool)
    ensures
        r == absolute_on(path@, windows),
{
    let text = chars(path);
    let n: usize = text.len();
    if !windows {
        return n > 0 && text[0] == '/';
    }
    match read_prefix(text.as_slice()) {
        Some(prefix) => !prefix.drive || (n > prefix.size && is_divider(
            text[prefix.size],
            PathStyle::Windows,
        )),
        None => false,
    }
}

/// Whether a path has neither a prefix nor a root.
pub open spec fn unrooted(path: Seq<char>, windows: bool) -> bool {
    if windows {
        windows_prefix(path) is None && !rooted(path, 0)
    } else {
        !absolute(path)
    }
}

/// Whether a path has neither a prefix nor a root.
pub fn is_unrooted(path: &str, windows: bool) -> (r: bool)
    ensures
        r == unrooted(path@, windows),
{
    let text = chars(path);
    let n: usize = text.len();
    if !windows {
        return !(n > 0 && text[0] == '/');
    }
    read_prefix(text.as_slice()).is_none() && !(n > 0 && is_divider(text[0], PathStyle::Windows))
}

// ---------------------------------------------------------------------------
// Parts

/// The length of `path` without the dividers and the parts `.` at its end,
/// down to `lo`. A part `.` at the very beginning counts, and so does any in a
/// verbatim path.
pub open spec fn body_end(path: Seq<char>, lo: int, style: PathStyle) -> int
    decreases path.len(),
{
    let n = path.len() as int;
    if n <= lo {
        lo
    } else if n > 0 && (divides(path[n - 1], style) || style != PathStyle::Verbatim && n > 1
        && path[n - 1] == '.' && divides(path[n - 2], style)) {
        body_end(path.drop_last(), lo, style)
    } else {
        n
    }
}

/// Where the last part of `path` begins.
pub open spec fn part_start(path: Seq<char>, lo: int, style: PathStyle) -> int
    decreases path.len(),
{
    let n = path.len() as int;
    if n <= lo {
        lo
    } else if n > 0 && !divides(path[n - 1], style) {
        part_start(path.drop_last(), lo, style)
    } else {
        n
    }
}

/// The path without its last part, if it has one.
pub open spec fn parent_on(path: Seq<char>, windows: bool) -> Option<Seq<char>> {
    let style = path_style(path, windows);
    let lo = body_start(path, windows);
    let end = body_end(path, lo, style);
    if end <= lo {
        None
    } else {
        let start = part_start(path.take(end), lo, style);
        Some(path.take(body_end(path.take(start), lo, style)))
    }
}

/// The last part of a path, if it names a file.
pub open spec fn file_name(path: Seq<char>, windows: bool) -> Option<Seq<char>> {
    let style = path_style(path, windows);
    let lo = body_start(path, windows);
    let end = body_end(path, lo, style);
    let name = path.subrange(part_start(path.take(end), lo, style), end);
    if end <= lo || name == seq!['.', '.'] || name == seq!['.'] {
        None
    } else {
        Some(name)
    }
}

/// The position of the last full stop in a name.
pub open spec fn last_stop(name: Seq<char>) -> Option<int>
    decreases name.len(),
{
    if name.len() == 0 {
        None
    } else if name.last() == '.' {
        Some(name.len() - 1)
    } else {
        last_stop(name.drop_last())
    }
}

/// The last part of a path without its extension.
pub open spec fn stem_on(path: Seq<char>, windows: bool) -> Option<Seq<char>> {
    match file_name(path, windows) {
        Some(name) => match last_stop(name) {
            Some(i) if i > 0 => Some(name.take(i)),
            _ => Some(name),
        },
        None => None,
    }
}

/// The length of the first `size` characters of `path` without the dividers
/// and the parts `.` at their end.
fn trimmed_end(path: &[char], size: usize, lo: usize, style: PathStyle) -> (r: usize)
    requires
        lo <= size <= path@.len(),
    ensures
        r == body_end(path@.take(size as int), lo as int, style),
        lo <= r <= size,
{
    let mut n: usize = size;
    while n > lo && (is_divider(path[n - 1], style) || (style != PathStyle::Verbatim && n > 1
        && path[n - 1] == '.' && is_divider(path[n - 2], style)))
        invariant
            lo <= n <= size <= path@.len(),
            body_end(path@.take(size as int), lo as int, style) == body_end(
                path@.take(n as int),
                lo as int,
                style,
            ),
        decreases n,
    {
        assert(path@.take(n as int).drop_last() == path@.take(n - 1));
        n -= 1;
    }
    n
}

/// Where the last part of the first `size` characters of `path` begins.
fn last_part(path: &[char], size: usize, lo: usize, style: PathStyle) -> (r: usize)
    requires
        lo <= size <= path@.len(),
    ensures
        r == part_start(path@.take(size as int), lo as int, style),
        lo <= r <= size,
{
    let mut n: usize = size;
    while n > lo && !is_divider(path[n - 1], style)
        invariant
            lo <= n <= size <= path@.len(),
            part_start(path@.take(size as int), lo as int, style) == part_start(
                path@.take(n as int),
                lo as int,
                style,
            ),
        decreases n,
    {
        assert(path@.take(n as int).drop_last() == path@.take(n - 1));
        n -= 1;
    }
    n
}

/// The path without its last part, if it has one.
pub fn parent(path: &str, windows: bool) -> (r: Option<String>)
    ensures
        match r {
            Some(dir) => parent_on(path@, windows) == Some(dir@),
            None => parent_on(path@, windows) is None,
        },
{
    let found = chars(path);
    let text = found.as_slice();
    let size: usize = text.len();
    let (style, lo) = read_start(text, windows);
    assert(text@.take(size as int) == path@);
    let end = trimmed_end(text, size, lo, style);
    if end <= lo {
        return None;
    }
    let start = last_part(text, end, lo, style);
    let dir = trimmed_end(text, start, lo, style);
    Some(string(part(text, 0, dir).as_slice()))
}

/// The last part of a path without its extension, if it names a file.
pub fn file_stem(path: &str, windows: bool) -> (r: Option<String>)
    ensures
        match r {
            Some(name) => stem_on(path@, windows) == Some(name@),
            None => stem_on(path@, windows) is None,
        },
{
    let found = chars(path);
    let text = found.as_slice();
    let size: usize = text.len();
    let (style, lo) = read_start(text, windows);
    assert(text@.take(size as int) == path@);
    let end = trimmed_end(text, size, lo, style);
    let start = last_part(text, end, lo, style);
    let name = part(text, start, end);
    let ghost full = name@;
    assert(full.len() == 1 && full[0] == '.' ==> full =~= seq!['.']);
    assert(full.len() == 2 && full[0] == '.' && full[1] == '.' ==> full =~= seq!['.', '.']);
    if end <= lo || (name.len() == 1 && name[0] == '.') || (name.len() == 2 && name[0] == '.'
        && name[1] == '.') {
        return None;
    }
    assert(file_name(path@, windows) == Some(full));
    let mut n: usize = name.len();
    assert(full.take(n as int) == full);
    while n > 0 && name[n - 1] != '.'
        invariant
            n <= name@.len(),
            full == name@,
            last_stop(full) == last_stop(full.take(n as int)),
        decreases n,
    {
        assert(full.take(n as int).drop_last() == full.take(n - 1));
        n -= 1;
    }
    if n > 1 {
        assert(last_stop(full) == Some(n - 1));
        Some(string(part(name.as_slice(), 0, n - 1).as_slice()))
    } else {
        Some(string(name.as_slice()))
    }
}

// ---------------------------------------------------------------------------
// Joining on Windows

/// A path with slashes in place of its backslashes.
pub open spec fn with_slashes(path: Seq<char>) -> Seq<char> {
    path.map_values(
        |c: char|
            if c == '\\' {
                '/'
            } else {
                c
            },
    )
}

/// The pieces of a path between slashes, and on Windows also backslashes.
pub open spec fn path_pieces(path: Seq<char>, windows: bool) -> Seq<Seq<char>> {
    split(
        if windows {
            with_slashes(path)
        } else {
            path
        },
        '/',
    )
}

/// The pieces of a path between slashes, and on Windows also backslashes.
pub fn cut_path(path: &str, windows: bool) -> (r: Vec<Vec<char>>)
    ensures
        texts(r@) == path_pieces(path@, windows),
        r@.len() > 0,
{
    let text = chars(path);
    if !windows {
        return pieces(text.as_slice(), '/');
    }
    let mut out: Vec<char> = Vec::new();
    let mut i: usize = 0;
    while i < text.len()
        invariant
            i <= text@.len(),
            out@ == with_slashes(text@).take(i as int),
        decreases text@.len() - i,
    {
        if text[i] == '\\' {
            out.push('/');
        } else {
            out.push(text[i]);
        }
        i += 1;
        assert(out@ =~= with_slashes(text@).take(i as int));
    }
    assert(out@ =~= with_slashes(text@));
    pieces(out.as_slice(), '/')
}

/// The parts of a verbatim path after a further part is seen from there: `.`
/// stays, and `..` leads upwards from a part with a name.
pub open spec fn walk_part(parts: Seq<Seq<char>>, next: Seq<char>) -> Seq<Seq<char>> {
    if next.len() == 0 || next == seq!['.'] {
        parts
    } else if next == seq!['.', '.'] {
        if parts.len() > 0 && parts.last() != seq!['.'] && parts.last() != seq!['.', '.'] {
            parts.drop_last()
        } else {
            parts
        }
    } else {
        parts.push(next)
    }
}

/// The parts of a verbatim path after further parts.
pub open spec fn walk(parts: Seq<Seq<char>>, more: Seq<Seq<char>>) -> Seq<Seq<char>>
    decreases more.len(),
{
    if more.len() == 0 {
        parts
    } else {
        walk_part(walk(parts, more.drop_last()), more.last())
    }
}

/// The parts of a verbatim path.
pub open spec fn verbatim_parts(path: Seq<char>) -> Seq<Seq<char>> {
    nonempty(split(path.skip(body_start(path, true)), '\\'))
}

/// The path `name` as seen from the directory `base`, which is verbatim.
pub open spec fn verbatim_join(base: Seq<char>, name: Seq<char>) -> Seq<char> {
    let size = windows_prefix(base)->0.size;
    let parts = walk(
        if rooted(name, 0) {
            Seq::empty()
        } else {
            verbatim_parts(base)
        },
        path_pieces(name, true),
    );
    let root = rooted(name, 0) || rooted(base, size);
    base.take(size) + (if root || parts.len() > 0 {
        seq!['\\']
    } else {
        Seq::empty()
    }) + join_parts(parts, seq!['\\'])
}

/// The path `name` as seen from the directory `base` on Windows.
#[verifier::opaque]
pub open spec fn windows_join(base: Seq<char>, name: Seq<char>) -> Seq<char> {
    let size = match windows_prefix(base) {
        Some(prefix) => prefix.size,
        None => 0,
    };
    if windows_prefix(name) is Some {
        name
    } else if path_style(base, true) == PathStyle::Verbatim && name.len() > 0 {
        verbatim_join(base, name)
    } else if rooted(name, 0) {
        base.take(size) + name
    } else if base.len() > 0 && !slash(base.last()) && !(base.len() == 2 && drive_at(base, 0)) {
        base.push('\\') + name
    } else {
        base + name
    }
}

/// The path `name` as seen from the directory `base`.
pub open spec fn join_on(base: Seq<char>, name: Seq<char>, windows: bool) -> Seq<char> {
    if windows {
        windows_join(base, name)
    } else {
        join_path(base, name)
    }
}

/// The pieces that hold at least one character.
fn kept_pieces(list: Vec<Vec<char>>) -> (r: Vec<Vec<char>>)
    ensures
        texts(r@) == nonempty(texts(list@)),
{
    let mut out: Vec<Vec<char>> = Vec::new();
    let mut i: usize = 0;
    let ghost all = texts(list@);
    assert(texts(out@) =~= nonempty(all.take(0)));
    while i < list.len()
        invariant
            i <= list@.len(),
            all == texts(list@),
            texts(out@) == nonempty(all.take(i as int)),
        decreases list@.len() - i,
    {
        assert(all.take(i + 1).drop_last() == all.take(i as int));
        assert(all[i as int] == list@[i as int]@);
        if list[i].len() > 0 {
            let ghost before = texts(out@);
            let copy = part(list[i].as_slice(), 0, list[i].len());
            assert(copy@ =~= all[i as int]);
            out.push(copy);
            assert(texts(out@) =~= before.push(all[i as int]));
        }
        i += 1;
    }
    assert(all.take(i as int) == all);
    out
}

/// Whether a part is a single full stop.
fn is_here(name: &[char]) -> (r: bool)
    ensures
        r == (name@ == seq!['.']),
{
    let r = name.len() == 1 && name[0] == '.';
    assert(r ==> name@ =~= seq!['.']);
    r
}

/// Whether a part is two full stops.
fn is_upwards(name: &[char]) -> (r: bool)
    ensures
        r == (name@ == seq!['.', '.']),
{
    let r = name.len() == 2 && name[0] == '.' && name[1] == '.';
    assert(r ==> name@ =~= seq!['.', '.']);
    r
}

/// The parts of a verbatim path after further parts.
fn walk_on(parts: Vec<Vec<char>>, more: &Vec<Vec<char>>) -> (r: Vec<Vec<char>>)
    ensures
        texts(r@) == walk(texts(parts@), texts(more@)),
{
    let ghost first = texts(parts@);
    let ghost all = texts(more@);
    let mut out = parts;
    let mut i: usize = 0;
    assert(texts(out@) == walk(first, all.take(0)));
    while i < more.len()
        invariant
            i <= more@.len(),
            all == texts(more@),
            texts(out@) == walk(first, all.take(i as int)),
        decreases more@.len() - i,
    {
        assert(all.take(i + 1).drop_last() == all.take(i as int));
        assert(all[i as int] == more@[i as int]@);
        let ghost before = texts(out@);
        let next = more[i].as_slice();
        let n: usize = out.len();
        if next.len() == 0 || is_here(next) {
        } else if is_upwards(next) {
            if n > 0 {
                assert(before.last() == out@[n - 1]@);
                if !is_here(out[n - 1].as_slice()) && !is_upwards(out[n - 1].as_slice()) {
                    out.pop();
                    assert(texts(out@) =~= before.drop_last());
                }
            }
        } else {
            let copy = part(next, 0, next.len());
            assert(copy@ =~= all[i as int]);
            out.push(copy);
            assert(texts(out@) =~= before.push(all[i as int]));
        }
        i += 1;
    }
    assert(all.take(i as int) == all);
    out
}

/// The path `name` as seen from the directory `base`, which is verbatim and
/// has a prefix of `size` characters.
fn join_verbatim(base: &[char], size: usize, name: &str) -> (r: Vec<char>)
    requires
        windows_prefix(base@) matches Some(prefix) && prefix.size == size && prefix.verbatim
            && size <= base@.len(),
    ensures
        r@ == verbatim_join(base@, name@),
{
    let found = chars(name);
    let more = cut_path(name, true);
    let above = found.len() > 0 && is_divider(found[0], PathStyle::Windows);
    let (_, start) = read_start(base, true);
    let rest = part(base, start, base.len());
    assert(rest@ =~= base@.skip(start as int));
    let first = if above {
        let none: Vec<Vec<char>> = Vec::new();
        assert(texts(none@) =~= Seq::empty());
        none
    } else {
        kept_pieces(pieces(rest.as_slice(), '\\'))
    };
    let parts = walk_on(first, &more);
    let mut out = part(base, 0, size);
    assert(out@ =~= base@.take(size as int));
    if above || (base.len() > size && is_divider(base[size], PathStyle::Windows)) || parts.len()
        > 0 {
        out.push('\\');
        assert(out@ =~= base@.take(size as int) + seq!['\\']);
    } else {
        assert(out@ =~= base@.take(size as int) + Seq::empty());
    }
    proof {
        reveal_strlit("\\");
        assert("\\"@ =~= seq!['\\']);
        assert(texts(parts@).len() == parts@.len());
    }
    extend(&mut out, joined(&parts, "\\").as_slice());
    out
}

/// The path `name` as seen from the directory `base` on Windows.
fn join_windows(base: &str, name: &str) -> (r: String)
    ensures
        r@ == windows_join(base@, name@),
{
    proof {
        reveal(windows_join);
    }
    let name_text = chars(name);
    let base_text = chars(base);
    let n: usize = base_text.len();
    if read_prefix(name_text.as_slice()).is_some() {
        return string(name_text.as_slice());
    }
    let prefix = read_prefix(base_text.as_slice());
    let size: usize = match &prefix {
        Some(prefix) => prefix.size,
        None => 0,
    };
    if let Some(prefix) = prefix {
        if prefix.verbatim && name_text.len() > 0 {
            return string(join_verbatim(base_text.as_slice(), size, name).as_slice());
        }
    }
    if name_text.len() > 0 && is_divider(name_text[0], PathStyle::Windows) {
        let mut out = part(base_text.as_slice(), 0, size);
        assert(out@ =~= base@.take(size as int));
        extend(&mut out, name_text.as_slice());
        return string(out.as_slice());
    }
    let apart = n > 0 && !is_divider(base_text[n - 1], PathStyle::Windows) && !(n == 2
        && is_drive_at(base_text.as_slice(), 0));
    let mut out = base_text;
    if apart {
        out.push('\\');
    }
    extend(&mut out, name_text.as_slice());
    string(out.as_slice())
}

/// The path `name` as seen from the directory `base`.
pub fn join_for(base: &str, name: &str, windows: bool) -> (r: String)
    ensures
        r@ == join_on(base@, name@, windows),
{
    if windows {
        join_windows(base, name)
    } else {
        join(base, name)
    }
}

/// Parts that do not lead upwards continue the parts of a verbatim path.
pub proof fn lemma_walk_down(parts: Seq<Seq<char>>, more: Seq<Seq<char>>)
    requires
        forall|i: int| 0 <= i < more.len() ==> #[trigger] more[i] != seq!['.', '.'],
    ensures
        parts.len() <= walk(parts, more).len(),
        walk(parts, more).take(parts.len() as int) == parts,
    decreases more.len(),
{
    if more.len() == 0 {
        assert(parts.take(parts.len() as int) =~= parts);
    } else {
        let less = more.drop_last();
        assert forall|i: int| 0 <= i < less.len() implies #[trigger] less[i] != seq!['.', '.'] by {
            assert(less[i] == more[i]);
        }
        lemma_walk_down(parts, less);
        assert(more[more.len() - 1] != seq!['.', '.']);
        let before = walk(parts, less);
        assert(before.push(more.last()).take(parts.len() as int) =~= before.take(
            parts.len() as int,
        ));
    }
}

// ---------------------------------------------------------------------------
// Names below directories

/// A name below a directory: it is not empty, holds nothing that divides parts
/// of paths, and is not the directory itself.
pub open spec fn plain_name(name: Seq<char>) -> bool {
    name.len() > 0 && !name.contains('/') && !name.contains('\\') && name != seq!['.']
}

/// Whether the last part of a path, which begins after `lo` characters, counts.
pub open spec fn ends_plainly(base: Seq<char>, lo: int, style: PathStyle) -> bool {
    &&& lo < base.len()
    &&& !divides(base.last(), style)
    &&& !(base.last() == '.' && base.len() > 1 && divides(base[base.len() - 2], style))
}

/// Where the last part of a path begins, if a divider stands before it.
proof fn lemma_part_start(path: Seq<char>, lo: int, style: PathStyle, n: int)
    requires
        0 <= lo <= n < path.len(),
        divides(path[n], style),
        forall|i: int| n < i < path.len() ==> !divides(#[trigger] path[i], style),
    ensures
        part_start(path, lo, style) == n + 1,
    decreases path.len(),
{
    let last = path.len() - 1;
    if last > n {
        assert(!divides(path[last], style));
        let less = path.drop_last();
        assert forall|i: int| n < i < less.len() implies !divides(#[trigger] less[i], style) by {
            assert(less[i] == path[i]);
        }
        lemma_part_start(less, lo, style, n);
    }
}

/// A path that ends with a plain name below a directory, taken apart.
proof fn lemma_last_part(
    base: Seq<char>,
    divider: char,
    name: Seq<char>,
    lo: int,
    style: PathStyle,
)
    requires
        0 <= lo,
        ends_plainly(base, lo, style),
        divides(divider, style),
        plain_name(name),
    ensures
        ({
            let path = base.push(divider) + name;
            let n = base.len() as int;
            &&& body_end(path, lo, style) == path.len()
            &&& part_start(path.take(path.len() as int), lo, style) == n + 1
            &&& body_end(path.take(n + 1), lo, style) == n
            &&& path.take(n) == base
            &&& path.subrange(n + 1, path.len() as int) == name
        }),
{
    let path = base.push(divider) + name;
    let n = base.len() as int;
    let m = path.len() as int;
    assert(path.take(m) =~= path);
    assert(path.take(n + 1) =~= base.push(divider));
    assert(path.take(n) =~= base);
    assert(path.subrange(n + 1, m) =~= name);
    lemma_name_behind(base, divider, name, style);
    lemma_part_start(path, lo, style, n);
    lemma_plain_end(path, lo, style);
    lemma_divider_behind(base, divider, lo, style);
}

/// A path that ends plainly is kept whole.
proof fn lemma_plain_end(path: Seq<char>, lo: int, style: PathStyle)
    requires
        ends_plainly(path, lo, style),
    ensures
        body_end(path, lo, style) == path.len(),
{
}

/// A divider behind a path does not count.
proof fn lemma_divider_behind(base: Seq<char>, divider: char, lo: int, style: PathStyle)
    requires
        0 <= lo,
        ends_plainly(base, lo, style),
        divides(divider, style),
    ensures
        body_end(base.push(divider), lo, style) == base.len(),
{
    assert(base.push(divider).drop_last() =~= base);
    lemma_plain_end(base, lo, style);
}

/// A plain name behind a divider is the last part of a path, which ends
/// plainly.
proof fn lemma_name_behind(base: Seq<char>, divider: char, name: Seq<char>, style: PathStyle)
    requires
        divides(divider, style),
        plain_name(name),
    ensures
        ({
            let path = base.push(divider) + name;
            let n = base.len() as int;
            &&& path[n] == divider
            &&& forall|i: int| n < i < path.len() ==> !divides(#[trigger] path[i], style)
            &&& !divides(path.last(), style)
            &&& !(path.last() == '.' && path.len() > 1 && divides(path[path.len() - 2], style))
        }),
{
    let path = base.push(divider) + name;
    let n = base.len() as int;
    let m = path.len() as int;
    assert forall|i: int| n < i < m implies !divides(#[trigger] path[i], style) by {
        assert(path[i] == name[i - n - 1]);
        assert(name.contains(name[i - n - 1]));
    }
    assert(path.last() == path[m - 1]);
    if path.last() == '.' && m > 1 && divides(path[m - 2], style) {
        assert(m - 2 == n);
        assert(name.len() == 1 && name[0] == path[m - 1]);
        assert(name =~= seq!['.']);
    }
}

/// The directory of a name below a directory is that directory.
pub proof fn lemma_parent_of_name(base: Seq<char>, name: Seq<char>)
    requires
        ends_plainly(base, body_start(base, false), PathStyle::Slashes),
        plain_name(name),
    ensures
        join_on(base, name, false) == base + "/"@ + name,
        parent_on(base + "/"@ + name, false) == Some(base),
{
    reveal_strlit("/");
    let path = base.push('/') + name;
    assert(base + "/"@ + name =~= path);
    assert(name.contains(name[0]));
    assert(path[0] == base[0]);
    assert(join_path(base, name) =~= path);
    lemma_last_part(base, '/', name, body_start(base, false), PathStyle::Slashes);
}

/// Where the last full stop in a name stands.
proof fn lemma_last_stop(stem: Seq<char>, extension: Seq<char>)
    requires
        !extension.contains('.'),
    ensures
        last_stop(stem.push('.') + extension) == Some(stem.len() as int),
    decreases extension.len(),
{
    let name = stem.push('.') + extension;
    if extension.len() == 0 {
        assert(name =~= stem.push('.'));
    } else {
        let less = extension.drop_last();
        assert(extension.contains(extension.last()));
        assert(!less.contains('.')) by {
            if less.contains('.') {
                let i = choose|i: int| 0 <= i < less.len() && less[i] == '.';
                assert(extension[i] == '.');
            }
        }
        assert(name.drop_last() =~= stem.push('.') + less);
        lemma_last_stop(stem, less);
    }
}

/// The stem of a name below a directory is the name without its extension.
pub proof fn lemma_stem_of_name(base: Seq<char>, stem: Seq<char>, extension: Seq<char>)
    requires
        ends_plainly(base, body_start(base, false), PathStyle::Slashes),
        stem.len() > 0,
        !stem.contains('/') && !stem.contains('\\'),
        !extension.contains('/') && !extension.contains('\\') && !extension.contains('.'),
        extension.len() > 0 || stem != seq!['.'],
    ensures
        stem_on(base + "/"@ + stem + "."@ + extension, false) == Some(stem),
{
    reveal_strlit("/");
    reveal_strlit(".");
    let name = stem.push('.') + extension;
    let path = base.push('/') + name;
    assert(base + "/"@ + stem + "."@ + extension =~= path);
    assert(path[0] == base[0]);
    assert(plain_name(name)) by {
        if name.contains('/') {
            let i = choose|i: int| 0 <= i < name.len() && name[i] == '/';
            if i < stem.len() {
                assert(stem[i] == '/');
            } else if i > stem.len() {
                assert(extension[i - stem.len() - 1] == '/');
            }
        }
        if name.contains('\\') {
            let i = choose|i: int| 0 <= i < name.len() && name[i] == '\\';
            if i < stem.len() {
                assert(stem[i] == '\\');
            } else if i > stem.len() {
                assert(extension[i - stem.len() - 1] == '\\');
            }
        }
        assert(name.len() > 1);
    }
    lemma_last_part(base, '/', name, body_start(base, false), PathStyle::Slashes);
    if name == seq!['.', '.'] {
        assert(name[0] == '.' && stem.len() == 1);
        assert(stem =~= seq!['.']);
        assert(extension.len() == 0);
    }
    lemma_last_stop(stem, extension);
    assert(name.take(stem.len() as int) =~= stem);
}

/// On Windows the directory of a name below a directory of a drive is that
/// directory too.
pub proof fn lemma_parent_on_drive(letter: char, dir: Seq<char>, name: Seq<char>)
    requires
        'a' <= letter <= 'z' || 'A' <= letter <= 'Z',
        ends_plainly(seq![letter, ':', '\\'] + dir, 3, PathStyle::Windows),
        plain_name(name),
        windows_prefix(name) is None,
    ensures
        ({
            let base = seq![letter, ':', '\\'] + dir;
            let path = base + seq!['\\'] + name;
            &&& join_on(base, name, true) == path
            &&& parent_on(path, true) == Some(base)
            &&& absolute_on(path, true)
        }),
{
    reveal(windows_prefix);
    reveal(windows_join);
    let base = seq![letter, ':', '\\'] + dir;
    let path = base.push('\\') + name;
    assert(base + seq!['\\'] + name =~= path);
    assert(base[0] == letter && base[1] == ':' && base[2] == '\\');
    assert(path[0] == letter && path[1] == ':' && path[2] == '\\');
    assert(name.contains(name[0]));
    lemma_last_part(base, '\\', name, 3, PathStyle::Windows);
}

/// On Windows a path is absolute with a drive and a root, but not with one of
/// them alone; only a path without either has no root at all.
pub proof fn lemma_windows_roots(letter: char, rest: Seq<char>)
    requires
        'a' <= letter <= 'z' || 'A' <= letter <= 'Z',
    ensures
        absolute_on(seq![letter, ':', '\\'] + rest, true),
        absolute_on(seq![letter, ':', '/'] + rest, true),
        rest.len() == 0 || rest[0] != '\\' && rest[0] != '/' ==> !absolute_on(
            seq![letter, ':'] + rest,
            true,
        ) && !absolute_on(seq!['\\'] + rest, true) && !unrooted(seq!['\\'] + rest, true),
        !unrooted(seq![letter, ':'] + rest, true),
        absolute_on(seq!['/'] + rest, false),
        rest.len() == 0 || rest[0] != '/' ==> !absolute_on(rest, false) && unrooted(rest, false),
{
    reveal(windows_prefix);
    let a = seq![letter, ':', '\\'] + rest;
    let b = seq![letter, ':', '/'] + rest;
    let c = seq![letter, ':'] + rest;
    let d = seq!['\\'] + rest;
    assert(a[0] == letter && a[1] == ':' && a[2] == '\\');
    assert(b[0] == letter && b[1] == ':' && b[2] == '/');
    assert(c[0] == letter && c[1] == ':');
    assert(d[0] == '\\');
    if rest.len() > 0 {
        assert(c[2] == rest[0] && d[1] == rest[0]);
    }
}

/// On Windows a name with a drive replaces the directory that it is seen from,
/// and one with a root alone keeps its drive.
pub proof fn lemma_windows_joins(letter: char, dir: Seq<char>, other: char, name: Seq<char>)
    requires
        'a' <= letter <= 'z' || 'A' <= letter <= 'Z',
        'a' <= other <= 'z' || 'A' <= other <= 'Z',
        name.len() > 0 && name[0] != '\\' && name[0] != '/',
    ensures
        ({
            let base = seq![letter, ':', '\\'] + dir;
            let elsewhere = seq![other, ':'] + name;
            let below = seq!['\\'] + name;
            &&& join_on(base, elsewhere, true) == elsewhere
            &&& join_on(base, below, true) == seq![letter, ':'] + below
        }),
{
    reveal(windows_prefix);
    reveal(windows_join);
    let base = seq![letter, ':', '\\'] + dir;
    let elsewhere = seq![other, ':'] + name;
    let below = seq!['\\'] + name;
    assert(base[0] == letter && base[1] == ':' && base[2] == '\\');
    assert(elsewhere[0] == other && elsewhere[1] == ':');
    assert(below[0] == '\\' && below[1] == name[0]);
    assert(base.take(2) =~= seq![letter, ':']);
}

/// On Windows a share of a server is a root: a path that begins with one is
/// absolute and stays what it is when it is seen from another directory, and a
/// rooted name that is seen from below a share stays on that share.
pub proof fn lemma_windows_shares(
    server: Seq<char>,
    share: Seq<char>,
    rest: Seq<char>,
    dir: Seq<char>,
    name: Seq<char>,
)
    requires
        server.len() > 1 || server.len() == 1 && server[0] != '.' && server[0] != '?',
        share.len() > 0,
        forall|i: int| 0 <= i < server.len() ==> #[trigger] server[i] != '\\' && server[i] != '/',
        forall|i: int| 0 <= i < share.len() ==> #[trigger] share[i] != '\\' && share[i] != '/',
        rest.len() > 0 ==> rest[0] == '\\',
        name.len() > 0 && name[0] != '\\' && name[0] != '/',
    ensures
        ({
            let root = seq!['\\', '\\'] + server + seq!['\\'] + share;
            let path = root + rest;
            &&& absolute_on(path, true)
            &&& !unrooted(path, true)
            &&& join_on(dir, path, true) == path
            &&& join_on(path, seq!['\\'] + name, true) == root + seq!['\\'] + name
        }),
{
    reveal(windows_prefix);
    reveal(windows_join);
    let root = seq!['\\', '\\'] + server + seq!['\\'] + share;
    let path = root + rest;
    let m = 2 + server.len() as int;
    let n = m + 1 + share.len();
    assert(path[0] == '\\' && path[1] == '\\');
    assert(path[2] == server[0]);
    assert(path[m] == '\\');
    if server.len() > 1 {
        assert(path[3] == server[1]);
    }
    assert forall|k: int| 2 <= k < m implies !slash(#[trigger] path[k]) by {
        assert(path[k] == server[k - 2]);
    }
    assert forall|k: int| m + 1 <= k < n implies !slash(#[trigger] path[k]) by {
        assert(path[k] == share[k - m - 1]);
    }
    if rest.len() > 0 {
        assert(path[n] == rest[0]);
    }
    lemma_part_ends(path, 2, m, PathStyle::Windows);
    lemma_part_ends(path, m + 1, n, PathStyle::Windows);
    let below = seq!['\\'] + name;
    assert(below[0] == '\\' && below[1] == name[0]);
    assert(path.take(n) =~= root);
    assert(root + below =~= root + seq!['\\'] + name);
}

/// A part of a path reaches up to the next character that divides parts.
proof fn lemma_part_ends(path: Seq<char>, from: int, end: int, style: PathStyle)
    requires
        0 <= from <= end <= path.len(),
        forall|k: int| from <= k < end ==> !divides(#[trigger] path[k], style),
        end < path.len() ==> divides(path[end], style),
    ensures
        part_end(path, from, style) == end,
    decreases end - from,
{
    if from < end {
        lemma_part_ends(path, from + 1, end, style);
    }
}

/// A name without a stop has none.
proof fn lemma_no_stop(name: Seq<char>)
    requires
        !name.contains('.'),
    ensures
        last_stop(name) is None,
    decreases name.len(),
{
    if name.len() > 0 {
        let less = name.drop_last();
        assert(name.contains(name.last()));
        assert(!less.contains('.')) by {
            if less.contains('.') {
                let i = choose|i: int| 0 <= i < less.len() && less[i] == '.';
                assert(name[i] == '.');
            }
        }
        lemma_no_stop(less);
    }
}

/// A name without an extension is its own stem, and so is the name of a hidden
/// file, whose first character is its only stop.
pub proof fn lemma_whole_name_is_the_stem(base: Seq<char>, name: Seq<char>)
    requires
        ends_plainly(base, body_start(base, false), PathStyle::Slashes),
        name.len() > 0,
        !name.contains('/') && !name.contains('\\') && !name.contains('.'),
    ensures
        stem_on(base + seq!['/'] + name, false) == Some(name),
        stem_on(base + seq!['/', '.'] + name, false) == Some(seq!['.'] + name),
{
    let path = base.push('/') + name;
    assert(base + seq!['/'] + name =~= path);
    assert(path[0] == base[0]);
    assert(name.contains(name[0]));
    lemma_last_part(base, '/', name, body_start(base, false), PathStyle::Slashes);
    assert(name != seq!['.', '.']) by {
        assert(seq!['.', '.'][0] == '.');
    }
    lemma_no_stop(name);
    let dotted = seq!['.'] + name;
    let hidden = base.push('/') + dotted;
    assert(base + seq!['/', '.'] + name =~= hidden);
    assert(hidden[0] == base[0]);
    assert(plain_name(dotted)) by {
        if dotted.contains('/') {
            let i = choose|i: int| 0 <= i < dotted.len() && dotted[i] == '/';
            assert(name[i - 1] == '/');
        }
        if dotted.contains('\\') {
            let i = choose|i: int| 0 <= i < dotted.len() && dotted[i] == '\\';
            assert(name[i - 1] == '\\');
        }
        assert(dotted.len() > 1);
    }
    lemma_last_part(base, '/', dotted, body_start(base, false), PathStyle::Slashes);
    assert(dotted != seq!['.', '.']) by {
        assert(dotted[1] == name[0]);
    }
    lemma_last_stop(Seq::empty(), name);
    assert(Seq::<char>::empty().push('.') + name =~= dotted);
}

/// On Windows a name that is seen from a drive alone follows it directly: a
/// separator between them would make it a name below the root.
pub proof fn lemma_windows_drives(letter: char, name: Seq<char>)
    requires
        'a' <= letter <= 'z' || 'A' <= letter <= 'Z',
        windows_prefix(name) is None,
    ensures
        join_on(seq![letter, ':'], name, true) == seq![letter, ':'] + name,
{
    reveal(windows_prefix);
    reveal(windows_join);
    let base = seq![letter, ':'];
    assert(base[0] == letter && base[1] == ':');
    assert(base.take(2) =~= base);
}

/// A step up takes back the last part, if there is one that can be taken back;
/// an empty part and a single stop are no steps, and every other part is one.
pub proof fn lemma_steps(parts: Seq<Seq<char>>, last: Seq<char>)
    ensures
        walk_part(parts, Seq::empty()) == parts,
        walk_part(parts, seq!['.']) == parts,
        walk_part(Seq::empty(), seq!['.', '.']) == Seq::<Seq<char>>::empty(),
        last == seq!['.'] || last == seq!['.', '.'] ==> walk_part(
            parts.push(last),
            seq!['.', '.'],
        ) == parts.push(last),
        last != seq!['.'] && last != seq!['.', '.'] ==> walk_part(
            parts.push(last),
            seq!['.', '.'],
        ) == parts,
        last.len() > 0 && last != seq!['.'] && last != seq!['.', '.'] ==> walk_part(parts, last)
            == parts.push(last),
{
    assert(seq!['.', '.'].len() == 2);
    assert(seq!['.', '.'] != seq!['.']) by {
        assert(seq!['.'].len() == 1);
    }
    assert(parts.push(last).drop_last() =~= parts);
}

} // verus!
