//! Session paths and the identifiers derived from them.

use vstd::prelude::*;
use vstd::string::*;

use crate::keyed;
use crate::keyed::{text_order, TextOrder};
use crate::text;
use crate::text::{chars_of, eq_ignore_case, push_joined, string_of, text_eq};

verus! {

/// A file-system path as its components.
#[derive(Debug)]
pub struct SessionPath {
    /// Whether the path starts at the root.
    pub absolute: bool,
    /// The components below the start, in order.
    pub parts: Vec<String>,
}

/// What a path says.
#[verifier::ext_equal]
pub struct PathFacts {
    /// Whether the path starts at the root.
    pub absolute: bool,
    /// The components below the start, in order.
    pub parts: Seq<Seq<char>>,
}

impl View for SessionPath {
    type V = PathFacts;

    open spec fn view(&self) -> PathFacts {
        PathFacts { absolute: self.absolute, parts: text::texts(self.parts@) }
    }
}

impl Clone for SessionPath {
    fn clone(&self) -> (copy: SessionPath)
        ensures
            copy@ == self@,
    {
        SessionPath { absolute: self.absolute, parts: copy_parts(&self.parts, 0) }
    }
}

/// Copy the texts from a position on.
fn copy_parts(parts: &Vec<String>, from: usize) -> (copy: Vec<String>)
    requires
        from <= parts.len(),
    ensures
        text::texts(copy@) == text::texts(parts@).skip(from as int),
{
    let mut copy: Vec<String> = Vec::new();
    let mut i: usize = from;
    while i < parts.len()
        invariant
            from <= i <= parts.len(),
            copy.len() == i - from,
            forall|k: int| 0 <= k < copy.len() ==> (#[trigger] copy[k])@ == parts[from + k]@,
        decreases parts.len() - i,
    {
        copy.push(parts[i].clone());
        i += 1;
    }
    assert(text::texts(copy@) =~= text::texts(parts@).skip(from as int));
    copy
}

/// The position of the last `c`, or -1.
pub open spec fn last_of(s: Seq<char>, c: char) -> int
    decreases s.len(),
{
    if s.len() == 0 {
        -1
    } else if s.last() == c {
        s.len() - 1
    } else {
        last_of(s.drop_last(), c)
    }
}

/// What tells the position of the last `c`.
pub proof fn lemma_last_of(s: Seq<char>, c: char, at: int)
    requires
        -1 <= at < s.len(),
        at >= 0 ==> s[at] == c,
        forall|i: int| at < i < s.len() ==> s[i] != c,
    ensures
        last_of(s, c) == at,
    decreases s.len(),
{
    if s.len() > 0 && at < s.len() - 1 {
        assert(s.last() != c);
        assert forall|i: int| at < i < s.drop_last().len() implies s.drop_last()[i] != c by {}
        lemma_last_of(s.drop_last(), c, at);
    }
}

/// The last `c` is one, and none follows it.
pub proof fn lemma_last_of_found(s: Seq<char>, c: char)
    ensures
        -1 <= last_of(s, c) < s.len() || s.len() == 0,
        last_of(s, c) >= -1,
        last_of(s, c) >= 0 ==> s[last_of(s, c)] == c,
        forall|i: int| last_of(s, c) < i < s.len() ==> s[i] != c,
    decreases s.len(),
{
    if s.len() > 0 && s.last() != c {
        lemma_last_of_found(s.drop_last(), c);
        assert forall|i: int| last_of(s, c) < i < s.len() implies s[i] != c by {
            if i < s.len() - 1 {
                assert(s.drop_last()[i] != c);
            }
        }
    }
}

/// The directory and the leaf name of a session identifier.
pub open spec fn split_id(id: Seq<char>) -> (Seq<char>, Seq<char>) {
    let at = last_of(id, '/');
    if at < 0 {
        (Seq::empty(), id)
    } else {
        (id.take(at), id.skip(at + 1))
    }
}

fn find_last_char(chars: &Vec<char>, c: char) -> (at: Option<usize>)
    ensures
        match at {
            Some(i) => i < chars.len() && i == last_of(chars@, c),
            None => last_of(chars@, c) == -1,
        },
{
    let mut end: usize = chars.len();
    assert(chars@.take(end as int) == chars@);
    while end > 0
        invariant
            end <= chars.len(),
            last_of(chars@, c) == last_of(chars@.take(end as int), c),
        decreases end,
    {
        if chars[end - 1] == c {
            return Some(end - 1);
        }
        assert(chars@.take(end as int).drop_last() == chars@.take(end - 1));
        end -= 1;
    }
    None
}

/// Split a session identifier into directory and leaf name.
pub fn split_session_id(session_id: &str) -> (r: (String, String))
    ensures
        (r.0@, r.1@) == split_id(session_id@),
{
    let chars = chars_of(session_id);
    match find_last_char(&chars, '/') {
        Some(at) => {
            let directory = string_of(&chars, 0, at);
            let leaf = string_of(&chars, at + 1, chars.len());
            assert(directory@ == session_id@.take(at as int));
            assert(leaf@ == session_id@.skip(at + 1));
            (directory, leaf)
        },
        None => (String::new(), String::from_str(session_id)),
    }
}

/// The pieces of a text between its slashes.
pub open spec fn pieces(s: Seq<char>) -> Seq<Seq<char>>
    decreases s.len(),
{
    let at = last_of(s, '/');
    if 0 <= at < s.len() {
        pieces(s.take(at)).push(s.skip(at + 1))
    } else {
        seq![s]
    }
}

/// Split a text at its slashes.
fn split_pieces(s: &str) -> (found: Vec<String>)
    ensures
        text::texts(found@) == pieces(s@),
{
    let chars = chars_of(s);
    let mut found: Vec<String> = Vec::new();
    let mut start: usize = 0;
    let mut i: usize = 0;
    while i < chars.len()
        invariant
            start <= i <= chars.len(),
            chars@ == s@,
            forall|k: int| start <= k < i ==> chars[k] != '/',
            start == 0 ==> found.len() == 0,
            start > 0 ==> chars[start - 1] == '/' && text::texts(found@) == pieces(
                s@.take(start - 1),
            ),
        decreases chars.len() - i,
    {
        if chars[i] == '/' {
            let ghost before = text::texts(found@);
            let piece = string_of(&chars, start, i);
            let ghost text_piece = piece@;
            found.push(piece);
            proof {
                let head = s@.take(i as int);
                lemma_last_of(head, '/', start - 1);
                assert(text_piece == head.skip(start as int));
                if start > 0 {
                    assert(head.take(start - 1) == s@.take(start - 1));
                } else {
                    assert(text_piece == head);
                }
                assert(text::texts(found@) =~= before.push(text_piece));
                assert(text::texts(found@) =~= pieces(head));
            }
            start = i + 1;
        }
        i += 1;
    }
    let ghost before = text::texts(found@);
    let piece = string_of(&chars, start, chars.len());
    let ghost text_piece = piece@;
    found.push(piece);
    proof {
        lemma_last_of(s@, '/', start - 1);
        assert(text_piece == s@.skip(start as int));
        if start == 0 {
            assert(text_piece == s@);
        }
        assert(text::texts(found@) =~= before.push(text_piece));
        assert(text::texts(found@) =~= pieces(s@));
    }
    found
}

/// A path with one more component. An empty component adds nothing, nor does one that stands for
/// the directory itself, unless the path starts with it.
pub open spec fn pushed(path: PathFacts, part: Seq<char>) -> PathFacts {
    if part == Seq::<char>::empty() || (part == "."@ && (path.absolute || path.parts.len() > 0)) {
        path
    } else {
        PathFacts { absolute: path.absolute, parts: path.parts.push(part) }
    }
}

/// A path with more components.
pub open spec fn pushed_all(path: PathFacts, parts: Seq<Seq<char>>) -> PathFacts
    decreases parts.len(),
{
    if parts.len() == 0 {
        path
    } else {
        pushed(pushed_all(path, parts.drop_last()), parts.last())
    }
}

/// Whether the path ends in a name.
pub open spec fn has_file_name(path: PathFacts) -> bool {
    path.parts.len() > 0 && path.parts.last() != "."@ && path.parts.last() != ".."@
}

/// A path with its last name replaced, or a name added where it ends in none.
pub open spec fn with_file_name(path: PathFacts, name: Seq<char>) -> PathFacts {
    if has_file_name(path) {
        pushed(PathFacts { absolute: path.absolute, parts: path.parts.drop_last() }, name)
    } else {
        pushed(path, name)
    }
}

impl SessionPath {
    /// Add one component.
    pub fn push(&mut self, part: &str)
        ensures
            final(self)@ == pushed(old(self)@, part@),
    {
        proof {
            reveal_strlit(".");
        }
        if part.is_empty() {
            assert(part@ =~= Seq::<char>::empty());
            return;
        }
        if text_eq(part, ".") && (self.absolute || self.parts.len() > 0) {
            return;
        }
        let ghost before = self@;
        self.parts.push(String::from_str(part));
        assert(self@.parts =~= before.parts.push(part@));
    }

    /// Replace the last name, or add one where the path ends in none.
    pub fn set_file_name(&mut self, name: &str)
        ensures
            final(self)@ == with_file_name(old(self)@, name@),
    {
        if self.ends_in_name() {
            let ghost before = self@;
            let _last = self.parts.pop();
            assert(self@.parts =~= before.parts.drop_last());
        }
        self.push(name);
    }

    fn ends_in_name(&self) -> (named: bool)
        ensures
            named == has_file_name(self@),
    {
        if self.parts.len() == 0 {
            return false;
        }
        let last = self.parts[self.parts.len() - 1].as_str();
        assert(self@.parts.last() == last@);
        !text_eq(last, ".") && !text_eq(last, "..")
    }

    /// A path below this one.
    pub fn join(&self, part: &str) -> (joined: SessionPath)
        ensures
            joined@ == pushed(self@, part@),
    {
        let mut joined = self.clone();
        joined.push(part);
        joined
    }

    /// The path as text, with slashes between the components.
    pub fn display(&self) -> (s: String)
        ensures
            s@ == path_text(self@),
    {
        let mut s = String::new();
        if self.absolute {
            s.append("/");
        }
        push_joined(&mut s, &self.parts, "/");
        assert(s@ == path_text(self@));
        s
    }

    /// Whether the path is `root` or lies below it.
    pub fn starts_with(&self, root: &SessionPath) -> (r: bool)
        ensures
            r == under(self@, root@),
    {
        if !root.absolute && root.parts.len() == 0 {
            return true;
        }
        if self.absolute != root.absolute || self.parts.len() < root.parts.len() {
            return false;
        }
        let mut i: usize = 0;
        while i < root.parts.len()
            invariant
                i <= root.parts.len() <= self.parts.len(),
                forall|k: int|
                    0 <= k < i ==> (#[trigger] self@.parts[k]) == root@.parts[k],
            decreases root.parts.len() - i,
        {
            if !text_eq(self.parts[i].as_str(), root.parts[i].as_str()) {
                assert(self@.parts.take(root@.parts.len() as int)[i as int]
                    != root@.parts[i as int]);
                return false;
            }
            i += 1;
        }
        assert(self@.parts.take(root@.parts.len() as int) =~= root@.parts);
        true
    }

    /// Whether two paths have the same components.
    pub fn same_as(&self, other: &SessionPath) -> (same: bool)
        ensures
            same == (self@ == other@),
    {
        if self.absolute != other.absolute || self.parts.len() != other.parts.len() {
            assert(self@.parts.len() == self.parts.len());
            assert(other@.parts.len() == other.parts.len());
            return false;
        }
        let mut i: usize = 0;
        while i < self.parts.len()
            invariant
                i <= self.parts.len() == other.parts.len(),
                forall|k: int|
                    0 <= k < i ==> (#[trigger] self@.parts[k]) == other@.parts[k],
            decreases self.parts.len() - i,
        {
            if !text_eq(self.parts[i].as_str(), other.parts[i].as_str()) {
                assert(self@.parts[i as int] != other@.parts[i as int]);
                return false;
            }
            i += 1;
        }
        assert(self@ =~= other@);
        true
    }
}

/// A path as text, with slashes between the components.
pub open spec fn path_text(path: PathFacts) -> Seq<char> {
    (if path.absolute {
        "/"@
    } else {
        Seq::empty()
    }) + text::joined(path.parts, "/"@)
}

/// Whether a path is `root` or lies below it. Every path lies below the empty one.
pub open spec fn under(path: PathFacts, root: PathFacts) -> bool {
    ||| !root.absolute && root.parts.len() == 0
    ||| path.absolute == root.absolute && root.parts.len() <= path.parts.len() && path.parts.take(
        root.parts.len() as int,
    ) == root.parts
}

/// What remains of a path below `root`.
pub open spec fn below(path: PathFacts, root: PathFacts) -> PathFacts {
    if !root.absolute && root.parts.len() == 0 {
        path
    } else {
        PathFacts { absolute: false, parts: path.parts.skip(root.parts.len() as int) }
    }
}

/// The place of a component in the order of components: the name of the directory itself stands
/// before that of its parent, and both before all other names.
pub open spec fn part_rank(part: Seq<char>) -> int {
    if part == "."@ {
        1
    } else if part == ".."@ {
        2
    } else {
        3
    }
}

/// The order of components.
pub open spec fn part_before(a: Seq<char>, b: Seq<char>) -> bool {
    part_rank(a) < part_rank(b) || (part_rank(a) == part_rank(b) && keyed::text_before(a, b))
}

/// The order of components, from first to last.
pub open spec fn parts_before(a: Seq<Seq<char>>, b: Seq<Seq<char>>) -> bool
    decreases a.len(),
{
    if b.len() == 0 {
        false
    } else if a.len() == 0 {
        true
    } else if a[0] == b[0] {
        parts_before(a.skip(1), b.skip(1))
    } else {
        part_before(a[0], b[0])
    }
}

/// The order of paths by components. The root stands before every other component, and the empty
/// path before the root.
pub open spec fn path_before(a: PathFacts, b: PathFacts) -> bool {
    if a.absolute == b.absolute {
        parts_before(a.parts, b.parts)
    } else if a.absolute {
        b.parts.len() > 0
    } else {
        a.parts.len() == 0
    }
}

fn rank_of(part: &str) -> (rank: u8)
    ensures
        rank == part_rank(part@),
{
    if text_eq(part, ".") {
        1
    } else if text_eq(part, "..") {
        2
    } else {
        3
    }
}

fn part_is_before(a: &str, b: &str) -> (r: bool)
    ensures
        r == part_before(a@, b@),
{
    let x: u8 = rank_of(a);
    let y: u8 = rank_of(b);
    x < y || (x == y && matches!(text_order(a, b), TextOrder::Before))
}

/// Whether one path stands before another in the order of paths.
pub fn path_is_before(a: &SessionPath, b: &SessionPath) -> (r: bool)
    ensures
        r == path_before(a@, b@),
{
    if a.absolute != b.absolute {
        return if a.absolute {
            b.parts.len() > 0
        } else {
            a.parts.len() == 0
        };
    }
    let mut i: usize = 0;
    assert(a@.parts.skip(0) == a@.parts && b@.parts.skip(0) == b@.parts);
    while i < a.parts.len() && i < b.parts.len()
        invariant
            a.absolute == b.absolute,
            i <= a.parts.len(),
            i <= b.parts.len(),
            parts_before(a@.parts, b@.parts) == parts_before(
                a@.parts.skip(i as int),
                b@.parts.skip(i as int),
            ),
        decreases a.parts.len() - i,
    {
        let ghost x = a@.parts.skip(i as int);
        let ghost y = b@.parts.skip(i as int);
        assert(x[0] == a.parts[i as int]@ && y[0] == b.parts[i as int]@);
        if !text_eq(a.parts[i].as_str(), b.parts[i].as_str()) {
            return part_is_before(a.parts[i].as_str(), b.parts[i].as_str());
        }
        assert(x.skip(1) == a@.parts.skip(i + 1));
        assert(y.skip(1) == b@.parts.skip(i + 1));
        i += 1;
    }
    i < b.parts.len()
}

proof fn lemma_part_order(a: Seq<char>, b: Seq<char>)
    ensures
        a == b || part_before(a, b) || part_before(b, a),
        !(part_before(a, b) && part_before(b, a)),
{
    keyed::lemma_before_total(a, b);
}

proof fn lemma_parts_order(a: Seq<Seq<char>>, b: Seq<Seq<char>>)
    ensures
        a == b || parts_before(a, b) || parts_before(b, a),
        !(parts_before(a, b) && parts_before(b, a)),
        a == b ==> !parts_before(a, b),
    decreases a.len(),
{
    if a.len() > 0 && b.len() > 0 {
        lemma_part_order(a[0], b[0]);
        if a[0] == b[0] {
            lemma_parts_order(a.skip(1), b.skip(1));
            if a.skip(1) == b.skip(1) {
                assert(a == seq![a[0]] + a.skip(1));
                assert(b == seq![b[0]] + b.skip(1));
            }
        }
    } else if a.len() == 0 && b.len() == 0 {
        assert(a == b);
    }
}

proof fn lemma_parts_transitive(a: Seq<Seq<char>>, b: Seq<Seq<char>>, c: Seq<Seq<char>>)
    requires
        parts_before(a, b),
        parts_before(b, c),
    ensures
        parts_before(a, c),
    decreases a.len(),
{
    if a.len() > 0 {
        if a[0] == b[0] && b[0] == c[0] {
            lemma_parts_transitive(a.skip(1), b.skip(1), c.skip(1));
        } else {
            lemma_part_order(a[0], c[0]);
            lemma_part_order(a[0], b[0]);
            if a[0] != b[0] && b[0] != c[0] {
                if keyed::text_before(a[0], b[0]) && keyed::text_before(b[0], c[0]) {
                    keyed::lemma_before_transitive(a[0], b[0], c[0]);
                }
                assert(part_before(a[0], c[0]));
            }
        }
    }
}

/// Two paths that are not the same stand in exactly one order.
pub proof fn lemma_path_order(a: PathFacts, b: PathFacts)
    ensures
        a == b || path_before(a, b) || path_before(b, a),
        !(path_before(a, b) && path_before(b, a)),
        !path_before(a, a),
{
    lemma_parts_order(a.parts, b.parts);
    lemma_parts_order(a.parts, a.parts);
    assert(a.absolute == b.absolute && a.parts == b.parts ==> a =~= b);
}

/// The order of paths is transitive.
pub proof fn lemma_path_transitive(a: PathFacts, b: PathFacts, c: PathFacts)
    requires
        path_before(a, b),
        path_before(b, c),
    ensures
        path_before(a, c),
{
    if a.absolute == b.absolute && b.absolute == c.absolute {
        lemma_parts_transitive(a.parts, b.parts, c.parts);
    }
}

/// The extension of a file name: what follows its last dot, where that is not its first character.
pub open spec fn extension(name: Seq<char>) -> Option<Seq<char>> {
    let dot = last_of(name, '.');
    if name == ".."@ || dot <= 0 {
        None
    } else {
        Some(name.skip(dot + 1))
    }
}

/// The extension of the name that a path ends in.
pub open spec fn path_extension(path: PathFacts) -> Option<Seq<char>> {
    if path.parts.len() == 0 {
        None
    } else {
        extension(path.parts.last())
    }
}

fn name_extension(name: &str) -> (found: Option<(String, String)>)
    ensures
        match found {
            Some((stem, end)) => extension(name@) == Some(end@) && stem@ == name@.take(
                last_of(name@, '.'),
            ),
            None => extension(name@) is None,
        },
{
    if text_eq(name, "..") {
        return None;
    }
    let chars = chars_of(name);
    match find_last_char(&chars, '.') {
        Some(dot) => {
            if dot == 0 {
                return None;
            }
            let stem = string_of(&chars, 0, dot);
            let end = string_of(&chars, dot + 1, chars.len());
            assert(stem@ == name@.take(dot as int));
            assert(end@ == name@.skip(dot + 1));
            Some((stem, end))
        },
        None => None,
    }
}

/// Whether a path names a session log.
pub open spec fn is_log(path: PathFacts) -> bool {
    path_extension(path) matches Some(end) && text::ascii_lower(end) == text::ascii_lower("jsonl"@)
}

/// Return whether the path names a JSONL file.
pub fn is_session_log(path: &SessionPath) -> (r: bool)
    ensures
        r == is_log(path@),
{
    if path.parts.len() == 0 {
        return false;
    }
    let name = path.parts[path.parts.len() - 1].as_str();
    assert(path@.parts.last() == name@);
    match name_extension(name) {
        Some((_stem, end)) => eq_ignore_case(end.as_str(), "jsonl"),
        None => false,
    }
}

/// The components of a relative path without the extension of session logs.
pub open spec fn without_log_extension(parts: Seq<Seq<char>>) -> Seq<Seq<char>> {
    if parts.len() > 0 && extension(parts.last()) == Some("jsonl"@) {
        parts.drop_last().push(parts.last().take(last_of(parts.last(), '.')))
    } else {
        parts
    }
}

/// The stable session identifier of a file: its path below the root without the extension.
pub open spec fn file_id(root: PathFacts, file: PathFacts) -> Seq<char> {
    let relative = if under(file, root) {
        below(file, root)
    } else {
        file
    };
    path_text(
        PathFacts {
            absolute: relative.absolute,
            parts: without_log_extension(relative.parts),
        },
    )
}

/// Derive the stable session identifier from a JSONL path.
pub fn session_file_id(root: &SessionPath, file: &SessionPath) -> (id: String)
    ensures
        id@ == file_id(root@, file@),
{
    let inside = file.starts_with(root) && (root.absolute || root.parts.len() > 0);
    let mut relative = if inside {
        SessionPath { absolute: false, parts: copy_parts(&file.parts, root.parts.len()) }
    } else {
        file.clone()
    };
    let ghost rest = if under(file@, root@) {
        below(file@, root@)
    } else {
        file@
    };
    assert(relative@ =~= rest);
    if relative.parts.len() > 0 {
        let last: usize = relative.parts.len() - 1;
        assert(rest.parts.last() == relative.parts[last as int]@);
        match name_extension(relative.parts[last].as_str()) {
            Some((stem, end)) => {
                if text_eq(end.as_str(), "jsonl") {
                    let ghost name = stem@;
                    relative.parts.set(last, stem);
                    assert(relative@.parts =~= rest.parts.drop_last().push(name));
                }
            },
            None => {},
        }
    }
    relative.display()
}

/// The path of the log of a session below a root.
pub open spec fn log_path(root: PathFacts, id: Seq<char>) -> PathFacts {
    let at = last_of(id, '/');
    if at < 0 {
        with_file_name(pushed(root, id), id + ".jsonl"@)
    } else {
        pushed(pushed_all(root, pieces(id.take(at))), id.skip(at + 1) + ".jsonl"@)
    }
}

/// Build the JSONL path for one stable session identifier under a specific root.
pub fn session_file_path(root: &SessionPath, session_id: &str) -> (path: SessionPath)
    ensures
        path@ == log_path(root@, session_id@),
{
    let mut path = root.clone();
    let chars = chars_of(session_id);
    match find_last_char(&chars, '/') {
        Some(at) => {
            let parent = string_of(&chars, 0, at);
            assert(parent@ == session_id@.take(at as int));
            let components = split_pieces(parent.as_str());
            let ghost all = pieces(parent@);
            assert(all.take(0) == Seq::<Seq<char>>::empty());
            let mut i: usize = 0;
            while i < components.len()
                invariant
                    i <= components.len(),
                    all == text::texts(components@),
                    path@ == pushed_all(root@, all.take(i as int)),
                decreases components.len() - i,
            {
                assert(all.take(i + 1).drop_last() == all.take(i as int));
                assert(all.take(i + 1).last() == components[i as int]@);
                path.push(components[i].as_str());
                i += 1;
            }
            assert(all.take(all.len() as int) == all);
            let mut file_name = string_of(&chars, at + 1, chars.len());
            assert(file_name@ == session_id@.skip(at + 1));
            file_name.append(".jsonl");
            path.push(file_name.as_str());
        },
        None => {
            path.push(session_id);
            let mut file_name = String::from_str(session_id);
            file_name.append(".jsonl");
            path.set_file_name(file_name.as_str());
        },
    }
    path
}

/// Return whether the path falls under one of the configured session roots.
pub fn path_is_under_roots(session_dirs: &Vec<SessionPath>, path: &SessionPath) -> (r: bool)
    ensures
        r <==> exists|i: int|
            0 <= i < session_dirs.len() && under(path@, (#[trigger] session_dirs[i])@),
{
    let mut i: usize = 0;
    while i < session_dirs.len()
        invariant
            i <= session_dirs.len(),
            forall|k: int| 0 <= k < i ==> !under(path@, (#[trigger] session_dirs[k])@),
        decreases session_dirs.len() - i,
    {
        if path.starts_with(&session_dirs[i]) {
            return true;
        }
        i += 1;
    }
    false
}

/// The identifiers that a path has below those of the roots that hold it, in the order of the
/// roots.
pub open spec fn ids_below(roots: Seq<SessionPath>, path: PathFacts) -> Seq<Seq<char>>
    decreases roots.len(),
{
    if roots.len() == 0 {
        Seq::empty()
    } else {
        let rest = ids_below(roots.drop_last(), path);
        if under(path, roots.last()@) {
            rest.push(file_id(roots.last()@, path))
        } else {
            rest
        }
    }
}

/// Resolve every stable session identifier that a watcher event path can map to.
pub fn watch_event_session_ids(session_dirs: &Vec<SessionPath>, path: &SessionPath) -> (ids: Vec<
    String,
>)
    ensures
        text::texts(ids@) == if is_log(path@) {
            ids_below(session_dirs@, path@)
        } else {
            Seq::empty()
        },
{
    let mut ids: Vec<String> = Vec::new();
    assert(text::texts(ids@) =~= Seq::<Seq<char>>::empty());
    if !is_session_log(path) {
        return ids;
    }
    let mut i: usize = 0;
    assert(session_dirs@.take(0) == Seq::<SessionPath>::empty());
    while i < session_dirs.len()
        invariant
            i <= session_dirs.len(),
            text::texts(ids@) == ids_below(session_dirs@.take(i as int), path@),
        decreases session_dirs.len() - i,
    {
        assert(session_dirs@.take(i + 1).drop_last() == session_dirs@.take(i as int));
        assert(session_dirs@.take(i + 1).last() == session_dirs[i as int]);
        if path.starts_with(&session_dirs[i]) {
            let ghost before = text::texts(ids@);
            let id = session_file_id(&session_dirs[i], path);
            let ghost added = id@;
            ids.push(id);
            assert(text::texts(ids@) =~= before.push(added));
        }
        i += 1;
    }
    assert(session_dirs@.take(session_dirs.len() as int) == session_dirs@);
    ids
}

/// The home directory of the session logs: the configured one, else the hidden directory below the
/// user's home, else the hidden directory below the current one.
pub open spec fn home_path(codex_home: Option<SessionPath>, home: Option<SessionPath>) -> PathFacts {
    match codex_home {
        Some(path) => path@,
        None => match home {
            Some(path) => pushed(path@, ".codex"@),
            None => PathFacts { absolute: false, parts: seq![".codex"@] },
        },
    }
}

/// Resolve the Codex home directory from environment values.
pub fn codex_home_from_env(codex_home: &Option<SessionPath>, home: &Option<SessionPath>) -> (path:
    SessionPath)
    ensures
        path@ == home_path(*codex_home, *home),
{
    match codex_home {
        Some(path) => path.clone(),
        None => match home {
            Some(path) => path.join(".codex"),
            None => {
                let mut path = SessionPath { absolute: false, parts: Vec::new() };
                proof {
                    reveal_strlit(".codex");
                    reveal_strlit(".");
                    assert(".codex"@.len() != "."@.len());
                    assert(path@.parts =~= Seq::<Seq<char>>::empty());
                }
                path.push(".codex");
                assert(path@.parts =~= seq![".codex"@]);
                path
            },
        },
    }
}

/// What paths say.
pub open spec fn paths_facts(paths: Seq<SessionPath>) -> Seq<PathFacts> {
    paths.map_values(|path: SessionPath| path@)
}

/// Resolve session directories from CLI options or environment defaults.
pub fn resolve_session_dirs(
    session_dirs: &Vec<SessionPath>,
    configured_home: &Option<SessionPath>,
    home: &Option<SessionPath>,
) -> (dirs: Vec<SessionPath>)
    ensures
        paths_facts(dirs@) == if session_dirs.len() > 0 {
            paths_facts(session_dirs@)
        } else {
            seq![pushed(home_path(*configured_home, *home), "sessions"@)]
        },
{
    let mut dirs: Vec<SessionPath> = Vec::new();
    if session_dirs.len() > 0 {
        let mut i: usize = 0;
        while i < session_dirs.len()
            invariant
                i <= session_dirs.len(),
                dirs.len() == i,
                forall|k: int| 0 <= k < i ==> (#[trigger] dirs[k])@ == session_dirs[k]@,
            decreases session_dirs.len() - i,
        {
            dirs.push(session_dirs[i].clone());
            i += 1;
        }
        assert(paths_facts(dirs@) =~= paths_facts(session_dirs@));
        return dirs;
    }
    dirs.push(codex_home_from_env(configured_home, home).join("sessions"));
    assert(paths_facts(dirs@) =~= seq![
        pushed(home_path(*configured_home, *home), "sessions"@),
    ]);
    dirs
}

/// Whether a text can stand between two slashes of a path.
pub open spec fn is_component(part: Seq<char>) -> bool {
    part.len() > 0 && forall|i: int| 0 <= i < part.len() ==> part[i] != '/'
}

/// Whether the components of a path are components, and the directory itself is named only at the
/// start of a relative path.
pub open spec fn valid_path(path: PathFacts) -> bool {
    forall|i: int|
        0 <= i < path.parts.len() ==> is_component(#[trigger] path.parts[i]) && (path.parts[i]
            == "."@ ==> i == 0 && !path.absolute)
}

/// Components that are no mere signs are all added.
pub proof fn lemma_pushed_all(root: PathFacts, parts: Seq<Seq<char>>)
    requires
        forall|i: int|
            0 <= i < parts.len() ==> (#[trigger] parts[i]).len() > 0 && (parts[i] == "."@ ==> i == 0
                && !root.absolute && root.parts.len() == 0),
    ensures
        pushed_all(root, parts) == (PathFacts {
            absolute: root.absolute,
            parts: root.parts + parts,
        }),
    decreases parts.len(),
{
    if parts.len() == 0 {
        assert(root.parts + parts == root.parts);
    } else {
        let init = parts.drop_last();
        assert forall|i: int| 0 <= i < init.len() implies (#[trigger] init[i]).len() > 0 && (init[i]
            == "."@ ==> i == 0 && !root.absolute && root.parts.len() == 0) by {
            assert(init[i] == parts[i]);
        }
        lemma_pushed_all(root, init);
        assert(parts.last() == parts[parts.len() - 1]);
        if parts.last() == "."@ {
            assert(root.parts + init =~= Seq::<Seq<char>>::empty());
        }
        assert((root.parts + init).push(parts.last()) =~= root.parts + parts);
    }
}

proof fn lemma_joined_split(parts: Seq<Seq<char>>)
    requires
        parts.len() > 0,
        forall|i: int, k: int|
            0 <= i < parts.len() && 0 <= k < parts[i].len() ==> #[trigger] parts[i][k] != '/',
    ensures
        parts.len() == 1 ==> last_of(text::joined(parts, "/"@), '/') == -1,
        parts.len() > 1 ==> {
            let id = text::joined(parts, "/"@);
            let at = last_of(id, '/');
            0 <= at < id.len() && id.take(at) == text::joined(parts.drop_last(), "/"@) && id.skip(
                at + 1,
            ) == parts.last()
        },
{
    reveal_strlit("/");
    let id = text::joined(parts, "/"@);
    assert forall|k: int| 0 <= k < parts.last().len() implies parts.last()[k] != '/' by {
        assert(parts[parts.len() - 1][k] != '/');
    }
    if parts.len() == 1 {
        lemma_last_of(id, '/', -1);
    } else {
        let head = text::joined(parts.drop_last(), "/"@);
        let at = head.len() as int;
        assert(id[at] == '/');
        assert forall|i: int| at < i < id.len() implies id[i] != '/' by {
            assert(id[i] == parts.last()[i - at - 1]);
        }
        lemma_last_of(id, '/', at);
        assert(id.take(at) =~= head);
        assert(id.skip(at + 1) =~= parts.last());
    }
}

proof fn lemma_pieces_of_joined(parts: Seq<Seq<char>>)
    requires
        parts.len() > 0,
        forall|i: int, k: int|
            0 <= i < parts.len() && 0 <= k < parts[i].len() ==> #[trigger] parts[i][k] != '/',
    ensures
        pieces(text::joined(parts, "/"@)) == parts,
    decreases parts.len(),
{
    lemma_joined_split(parts);
    if parts.len() == 1 {
        assert(parts =~= seq![parts[0]]);
    } else {
        let init = parts.drop_last();
        assert forall|i: int, k: int| 0 <= i < init.len() && 0 <= k < init[i].len() implies
            #[trigger] init[i][k] != '/' by {
            assert(parts[i][k] != '/');
        }
        lemma_pieces_of_joined(init);
        assert(parts =~= init.push(parts.last()));
    }
}

proof fn lemma_joined_pieces(s: Seq<char>)
    ensures
        pieces(s).len() > 0,
        text::joined(pieces(s), "/"@) == s,
        forall|i: int, k: int|
            0 <= i < pieces(s).len() && 0 <= k < pieces(s)[i].len() ==> #[trigger] pieces(s)[i][k]
                != '/',
    decreases s.len(),
{
    reveal_strlit("/");
    lemma_last_of_found(s, '/');
    let at = last_of(s, '/');
    if 0 <= at < s.len() {
        lemma_joined_pieces(s.take(at));
        let parts = pieces(s);
        assert(parts.drop_last() =~= pieces(s.take(at)));
        assert(s =~= s.take(at) + "/"@ + s.skip(at + 1));
        assert forall|i: int, k: int| 0 <= i < parts.len() && 0 <= k < parts[i].len() implies
            #[trigger] parts[i][k] != '/' by {
            if i < parts.len() - 1 {
                assert(parts[i] == pieces(s.take(at))[i]);
                assert(pieces(s.take(at))[i][k] != '/');
            } else {
                assert(parts[i] == s.skip(at + 1));
                assert(s.skip(at + 1)[k] == s[at + 1 + k]);
            }
        }
    }
}

/// The log path built from the identifier of a log below a root is the path of that log: an
/// identifier finds its file again. Left out are files directly below the root whose name without
/// the extension stands for a directory.
pub proof fn law_identifier_finds_its_log(root: PathFacts, file: PathFacts)
    requires
        valid_path(file),
        under(file, root),
        !below(file, root).absolute,
        path_extension(below(file, root)) == Some("jsonl"@),
        below(file, root).parts.len() == 1 ==> file.parts.last() != "..jsonl"@ && file.parts.last()
            != "...jsonl"@,
    ensures
        log_path(root, file_id(root, file)) == file,
{
    reveal_strlit("/");
    reveal_strlit(".");
    reveal_strlit("..");
    reveal_strlit("jsonl");
    reveal_strlit(".jsonl");
    reveal_strlit("..jsonl");
    reveal_strlit("...jsonl");
    let rest = below(file, root).parts;
    let name = rest.last();
    let dot = last_of(name, '.');
    lemma_last_of_found(name, '.');
    let stem = name.take(dot);
    let parts = without_log_extension(rest);
    let id = file_id(root, file);
    assert(file.parts =~= root.parts + rest);
    assert(file.absolute == root.absolute);
    assert(name =~= stem + ".jsonl"@) by {
        assert(name.skip(dot + 1) == "jsonl"@);
        assert(name =~= stem + seq![name[dot]] + name.skip(dot + 1));
    }
    assert(id =~= text::joined(parts, "/"@));
    assert forall|i: int| 0 <= i < rest.len() implies is_component(#[trigger] rest[i]) && (rest[i]
        == "."@ ==> i == 0 && !root.absolute && root.parts.len() == 0) by {
        assert(rest[i] == file.parts[root.parts.len() + i]);
    }
    assert(parts.drop_last() =~= rest.drop_last());
    assert(parts.last() == stem);
    assert forall|i: int, k: int| 0 <= i < parts.len() && 0 <= k < parts[i].len() implies
        #[trigger] parts[i][k] != '/' by {
        if i < parts.len() - 1 {
            assert(parts[i] == rest[i]);
            assert(is_component(rest[i]));
        } else {
            assert(is_component(rest[i]));
            assert(parts[i][k] == name[k]);
        }
    }
    lemma_joined_split(parts);
    if parts.len() == 1 {
        assert(id == stem);
        assert(stem != "."@) by {
            if stem == "."@ {
                assert(name =~= "..jsonl"@);
            }
        }
        assert(stem != ".."@) by {
            if stem == ".."@ {
                assert(name =~= "...jsonl"@);
            }
        }
        let whole = pushed(root, id);
        assert(whole.parts =~= root.parts.push(id));
        assert(whole.parts.drop_last() =~= root.parts);
        assert(name.len() > 1);
        assert(root.parts.push(name) =~= file.parts);
        assert(log_path(root, id) =~= file);
    } else {
        let init = rest.drop_last();
        assert forall|i: int| 0 <= i < init.len() implies (#[trigger] init[i]).len() > 0 && (init[i]
            == "."@ ==> i == 0 && !root.absolute && root.parts.len() == 0) by {
            assert(init[i] == rest[i]);
        }
        lemma_pushed_all(root, init);
        assert forall|i: int, k: int| 0 <= i < init.len() && 0 <= k < init[i].len() implies
            #[trigger] init[i][k] != '/' by {
            assert(init[i] == rest[i]);
            assert(is_component(rest[i]));
        }
        lemma_pieces_of_joined(init);
        assert((root.parts + init).push(name) =~= file.parts);
        assert(log_path(root, id) =~= file);
    }
}

/// The identifier of the log path built from an identifier is that identifier, where its pieces
/// name files and directories.
pub proof fn law_log_keeps_its_identifier(root: PathFacts, id: Seq<char>)
    requires
        pieces(id).last().len() > 0,
        forall|i: int|
            0 <= i < pieces(id).len() - 1 ==> (#[trigger] pieces(id)[i]).len() > 0 && pieces(id)[i]
                != "."@,
        id != "."@ && id != ".."@,
    ensures
        file_id(root, log_path(root, id)) == id,
{
    reveal_strlit("/");
    reveal_strlit(".");
    reveal_strlit("..");
    reveal_strlit("jsonl");
    reveal_strlit(".jsonl");
    let parts = pieces(id);
    let last = parts.last();
    let name = last + ".jsonl"@;
    lemma_joined_pieces(id);
    lemma_last_of_found(id, '/');
    let at = last_of(id, '/');
    let init = parts.drop_last();
    assert forall|i: int| 0 <= i < init.len() implies (#[trigger] init[i]).len() > 0 && (init[i]
        == "."@ ==> i == 0 && !root.absolute && root.parts.len() == 0) by {
        assert(init[i] == parts[i]);
    }
    lemma_pushed_all(root, init);
    let file = log_path(root, id);
    if at < 0 {
        assert(last == id);
        assert(init =~= Seq::<Seq<char>>::empty());
        let whole = pushed(root, id);
        assert(whole.parts =~= root.parts.push(id));
        assert(whole.parts.drop_last() =~= root.parts);
    } else {
        assert(init =~= pieces(id.take(at)));
        assert(last == id.skip(at + 1));
    }
    assert(name.len() > 1);
    assert(file.parts =~= root.parts + init.push(name));
    assert(file.absolute == root.absolute);
    assert(file.parts.take(root.parts.len() as int) =~= root.parts);
    assert(under(file, root));
    let rest = below(file, root).parts;
    assert(rest =~= init.push(name));
    assert(!below(file, root).absolute);
    assert(name[last.len() as int] == '.');
    assert forall|i: int| last.len() < i < name.len() implies name[i] != '.' by {
        assert(name[i] == ".jsonl"@[i - last.len()]);
    }
    lemma_last_of(name, '.', last.len() as int);
    assert(name.skip(last.len() as int + 1) =~= "jsonl"@);
    assert(name.len() != ".."@.len());
    assert(name.take(last.len() as int) =~= last);
    assert(without_log_extension(rest) =~= parts);
    assert(file_id(root, file) =~= id);
}

} // verus!
