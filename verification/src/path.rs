//! Paths as text: segments separated by `/`. Joining, taking the part below a root,
//! file names and extensions, and lexical normalisation.
use crate::text::{chars_of, push_char};
use vstd::prelude::*;
use vstd::string::*;

verus! {

/// `s` without its leading slashes.
pub open spec fn strip_slashes(s: Seq<char>) -> Seq<char>
    decreases s.len(),
{
    if s.len() > 0 && s[0] == '/' {
        strip_slashes(s.skip(1))
    } else {
        s
    }
}

/// `below` appended to the directory `root`, with one slash between the two unless `root`
/// is empty or ends in one.
pub open spec fn join(root: Seq<char>, below: Seq<char>) -> Seq<char> {
    if root.len() == 0 {
        below
    } else if root.last() == '/' {
        root + below
    } else {
        root + seq!['/'] + below
    }
}

/// The file-system path that a request path stands for below `root`: the request path loses
/// its leading slashes and is appended to `root`.
pub open spec fn resolve(root: Seq<char>, request_path: Seq<char>) -> Seq<char> {
    join(root, strip_slashes(request_path))
}

/// Whether `path` is `root` or continues it at a segment boundary.
pub open spec fn is_under(path: Seq<char>, root: Seq<char>) -> bool {
    &&& root.is_prefix_of(path)
    &&& (root.len() == 0 || path.len() == root.len() || root.last() == '/' || path[root.len() as int]
        == '/')
}

/// The part of `path` below `root`, without leading slashes; a lone slash where `path` does
/// not lie under `root`.
pub open spec fn relative_to(path: Seq<char>, root: Seq<char>) -> Seq<char> {
    if is_under(path, root) {
        strip_slashes(path.skip(root.len() as int))
    } else {
        seq!['/']
    }
}

/// Index of the last `c` in `s`, or -1 where there is none.
pub open spec fn last_position(s: Seq<char>, c: char) -> int
    decreases s.len(),
{
    if s.len() == 0 {
        -1
    } else if s.last() == c {
        s.len() - 1
    } else {
        last_position(s.drop_last(), c)
    }
}

/// The last segment of `path`: what follows its last slash.
pub open spec fn file_name(path: Seq<char>) -> Seq<char> {
    path.skip(last_position(path, '/') + 1)
}

/// The extension of a file name: what follows its last dot, unless the name has no dot or
/// only the one it begins with; empty then.
pub open spec fn extension(name: Seq<char>) -> Seq<char> {
    if last_position(name, '.') <= 0 {
        Seq::<char>::empty()
    } else {
        name.skip(last_position(name, '.') + 1)
    }
}

/// Whether the text begins with a dot.
pub open spec fn starts_with_dot(s: Seq<char>) -> bool {
    s.len() > 0 && s[0] == '.'
}

/// The segment `..`, which names the parent directory.
pub open spec fn parent_segment() -> Seq<char> {
    seq!['.', '.']
}

/// The segment `.`, which names the directory itself.
pub open spec fn self_segment() -> Seq<char> {
    seq!['.']
}

/// The segments `done`, after the segment `segment` has been walked: an empty one and `.`
/// change nothing, `..` takes the last segment away if there is one, any other is added.
pub open spec fn close(done: Seq<Seq<char>>, segment: Seq<char>) -> Seq<Seq<char>> {
    if segment.len() == 0 || segment == self_segment() {
        done
    } else if segment == parent_segment() {
        if done.len() > 0 {
            done.drop_last()
        } else {
            done
        }
    } else {
        done.push(segment)
    }
}

/// Walking the characters of `s` from the state `(done, open)`: the segments that are
/// complete, and the segment that is still open.
pub open spec fn scan(done: Seq<Seq<char>>, open: Seq<char>, s: Seq<char>) -> (
    Seq<Seq<char>>,
    Seq<char>,
)
    decreases s.len(),
{
    if s.len() == 0 {
        (done, open)
    } else {
        let before = scan(done, open, s.drop_last());
        if s.last() == '/' {
            (close(before.0, before.1), Seq::<char>::empty())
        } else {
            (before.0, before.1.push(s.last()))
        }
    }
}

/// The segments that `s` comes to once `.` and `..` are resolved lexically: where it leads,
/// counted from where it starts.
pub open spec fn components(s: Seq<char>) -> Seq<Seq<char>> {
    let end = scan(Seq::empty(), Seq::empty(), s);
    close(end.0, end.1)
}

/// Whether walking `s` from the state `(done, open)` meets no `..` while no segment is left
/// to take away, the end of `s` not counted.
pub open spec fn keeps_inside(done: Seq<Seq<char>>, open: Seq<char>, s: Seq<char>) -> bool
    decreases s.len(),
{
    if s.len() == 0 {
        true
    } else {
        let before = scan(done, open, s.drop_last());
        &&& keeps_inside(done, open, s.drop_last())
        &&& (s.last() == '/' ==> !(before.1 == parent_segment() && before.0.len() == 0))
    }
}

/// Whether no `..` of `s` climbs above the directory that `s` starts in.
pub open spec fn stays_inside(s: Seq<char>) -> bool {
    let end = scan(Seq::empty(), Seq::empty(), s);
    &&& keeps_inside(Seq::empty(), Seq::empty(), s)
    &&& !(end.1 == parent_segment() && end.0.len() == 0)
}

/// The segments joined by slashes.
pub open spec fn joined(segments: Seq<Seq<char>>) -> Seq<char>
    decreases segments.len(),
{
    if segments.len() == 0 {
        Seq::<char>::empty()
    } else if segments.len() == 1 {
        segments[0]
    } else {
        joined(segments.drop_last()) + seq!['/'] + segments.last()
    }
}

/// `s` with each backslash turned into a slash.
pub open spec fn slashed(s: Seq<char>) -> Seq<char> {
    Seq::new(
        s.len(),
        |i: int|
            if s[i] == '\\' {
                '/'
            } else {
                s[i]
            },
    )
}

/// The normal form of `path`: its segments with `.` and `..` resolved, joined by slashes,
/// after a leading slash if `path` has one; backslashes become slashes.
pub open spec fn normalized(path: Seq<char>) -> Seq<char> {
    let lead = if path.len() > 0 && path[0] == '/' {
        seq!['/']
    } else {
        Seq::<char>::empty()
    };
    slashed(lead + joined(components(path)))
}

/// Walking `a` and then `b` is walking `a + b`.
pub proof fn lemma_scan_concat(done: Seq<Seq<char>>, open: Seq<char>, a: Seq<char>, b: Seq<char>)
    ensures
        scan(done, open, a + b) == ({
            let mid = scan(done, open, a);
            scan(mid.0, mid.1, b)
        }),
    decreases b.len(),
{
    if b.len() == 0 {
        assert(a + b == a);
    } else {
        assert((a + b).drop_last() == a + b.drop_last());
        lemma_scan_concat(done, open, a, b.drop_last());
    }
}

/// Segments that stand below the walk are carried through it untouched, as long as the
/// walk takes away only what it added itself.
pub proof fn lemma_scan_above(base: Seq<Seq<char>>, done: Seq<Seq<char>>, open: Seq<char>, s: Seq<char>)
    requires
        keeps_inside(done, open, s),
    ensures
        scan(base + done, open, s) == ({
            let end = scan(done, open, s);
            (base + end.0, end.1)
        }),
    decreases s.len(),
{
    if s.len() > 0 {
        lemma_scan_above(base, done, open, s.drop_last());
        let before = scan(done, open, s.drop_last());
        if s.last() == '/' {
            lemma_close_above(base, before.0, before.1);
        }
    }
}

/// Closing a segment above `base` leaves `base` untouched, unless the segment is `..` and
/// nothing stands above `base`.
pub proof fn lemma_close_above(base: Seq<Seq<char>>, done: Seq<Seq<char>>, segment: Seq<char>)
    requires
        !(segment == parent_segment() && done.len() == 0),
    ensures
        close(base + done, segment) == base + close(done, segment),
{
    if segment.len() == 0 || segment == self_segment() {
    } else if segment == parent_segment() {
        assert((base + done).drop_last() == base + done.drop_last());
    } else {
        assert((base + done).push(segment) == base + done.push(segment));
    }
}

/// A request path whose `..` segments never climb above its own start is resolved to a path
/// below the root: the segments that the resolved path comes to are those of the root,
/// followed by those of the request path.
pub proof fn lemma_resolved_stays_under_root(root: Seq<char>, request_path: Seq<char>)
    requires
        stays_inside(strip_slashes(request_path)),
    ensures
        components(resolve(root, request_path)) == components(root) + components(
            strip_slashes(request_path),
        ),
        components(root).is_prefix_of(components(resolve(root, request_path))),
{
    let below = strip_slashes(request_path);
    let none = Seq::<Seq<char>>::empty();
    let nothing = Seq::<char>::empty();
    let within = scan(none, nothing, below);
    if root.len() == 0 {
        assert(components(root) == none);
        assert(none + components(below) == components(below));
    } else {
        let at_root = scan(none, nothing, root);
        let start: (Seq<Seq<char>>, Seq<char>) = if root.last() == '/' {
            lemma_scan_concat(none, nothing, root, below);
            assert(root.drop_last().push('/') == root);
            at_root
        } else {
            lemma_scan_concat(none, nothing, root, seq!['/']);
            lemma_scan_concat(none, nothing, root + seq!['/'], below);
            assert((root + seq!['/']).drop_last() == root);
            assert(seq!['/'].drop_last() == nothing);
            scan(none, nothing, root + seq!['/'])
        };
        assert(start.1 == nothing);
        assert(start.0 == components(root));
        assert(scan(none, nothing, resolve(root, request_path)) == scan(start.0, start.1, below));
        assert(components(root) + none == components(root));
        lemma_scan_above(components(root), none, nothing, below);
        lemma_close_above(components(root), within.0, within.1);
    }
}

/// What `strip_slashes` leaves is the end of its argument, and begins with no slash.
pub proof fn lemma_strip_slashes(s: Seq<char>)
    ensures
        strip_slashes(s).len() == 0 || strip_slashes(s)[0] != '/',
        strip_slashes(strip_slashes(s)) == strip_slashes(s),
        exists|k: int| 0 <= k <= s.len() && strip_slashes(s) == #[trigger] s.skip(k),
    decreases s.len(),
{
    if s.len() > 0 && s[0] == '/' {
        lemma_strip_slashes(s.skip(1));
        let k = choose|k: int| 0 <= k <= s.skip(1).len() && strip_slashes(s.skip(1)) == s.skip(1).skip(k);
        assert(s.skip(1).skip(k) == s.skip(k + 1));
    } else {
        assert(s == s.skip(0));
    }
}

/// Below the root, a resolved request path is the request path without its leading slashes.
pub proof fn lemma_relative_of_resolved(root: Seq<char>, request_path: Seq<char>)
    ensures
        relative_to(resolve(root, request_path), root) == strip_slashes(request_path),
{
    let below = strip_slashes(request_path);
    let path = resolve(root, request_path);
    lemma_strip_slashes(request_path);
    if root.len() == 0 {
        assert(path.skip(0) == below);
    } else if root.last() == '/' {
        assert(path.skip(root.len() as int) == below);
    } else {
        assert(path.skip(root.len() as int) == seq!['/'] + below);
        assert((seq!['/'] + below).skip(1) == below);
    }
}

/// Below the root, a file in the directory that a request path resolves to is that file
/// below the request path without its leading slashes.
pub proof fn lemma_relative_of_entry(root: Seq<char>, request_path: Seq<char>, name: Seq<char>)
    requires
        name.len() > 0,
        name[0] != '/',
    ensures
        relative_to(join(resolve(root, request_path), name), root) == join(
            strip_slashes(request_path),
            name,
        ),
{
    let below = strip_slashes(request_path);
    let directory = resolve(root, request_path);
    let path = join(directory, name);
    lemma_strip_slashes(request_path);
    let inner = join(below, name);
    let lead = if root.len() == 0 || root.last() == '/' {
        Seq::<char>::empty()
    } else {
        seq!['/']
    };
    assert(directory == root + lead + below);
    assert(inner.len() > 0 && inner[0] != '/');
    assert(path == root + lead + inner) by {
        if below.len() == 0 {
            assert(inner == name);
            if directory.len() > 0 {
                assert(directory.last() == '/');
            }
        } else {
            assert(directory.last() == below.last());
        }
    }
    assert(path.skip(root.len() as int) == lead + inner);
    assert(root.is_prefix_of(path));
    assert(strip_slashes(inner) == inner);
    if lead.len() > 0 {
        assert((lead + inner).skip(1) == inner);
        assert(path[root.len() as int] == '/');
    } else {
        assert(lead + inner == inner);
    }
    assert(strip_slashes(lead + inner) == inner);
    assert(is_under(path, root));
}

/// Text without `c` at the end of `a` does not move the last `c`.
pub proof fn lemma_last_position_before(a: Seq<char>, b: Seq<char>, c: char)
    requires
        forall|i: int| 0 <= i < b.len() ==> b[i] != c,
    ensures
        last_position(a + b, c) == last_position(a, c),
    decreases b.len(),
{
    if b.len() == 0 {
        assert(a + b == a);
    } else {
        assert((a + b).drop_last() == a + b.drop_last());
        lemma_last_position_before(a, b.drop_last(), c);
    }
}

/// The file name of a name appended to a directory is that name.
pub proof fn lemma_file_name_of_joined(directory: Seq<char>, name: Seq<char>)
    requires
        forall|i: int| 0 <= i < name.len() ==> name[i] != '/',
    ensures
        file_name(join(directory, name)) == name,
{
    let path = join(directory, name);
    if directory.len() == 0 {
        lemma_last_position_before(Seq::empty(), name, '/');
        assert(Seq::<char>::empty() + name == name);
        assert(name.skip(0) == name);
    } else if directory.last() == '/' {
        lemma_last_position_before(directory, name, '/');
        assert(path.skip(directory.len() as int) == name);
    } else {
        lemma_last_position_before(directory + seq!['/'], name, '/');
        assert(path.skip(directory.len() as int + 1) == name);
    }
}

/// The characters `chars[from..to]`.
pub fn part_of(chars: &Vec<char>, from: usize, to: usize) -> (out: Vec<char>)
    requires
        from <= to <= chars.len(),
    ensures
        out@ == chars@.subrange(from as int, to as int),
{
    let mut out: Vec<char> = Vec::new();
    let mut i: usize = from;
    while i < to
        invariant
            from <= i <= to <= chars.len(),
            out@ == chars@.subrange(from as int, i as int),
        decreases to - i,
    {
        out.push(chars[i]);
        i += 1;
    }
    out
}

/// Index of the first character of `chars[from..]` that is no slash.
fn skip_slashes(chars: &Vec<char>, from: usize) -> (at: usize)
    requires
        from <= chars.len(),
    ensures
        from <= at <= chars.len(),
        chars@.skip(at as int) == strip_slashes(chars@.skip(from as int)),
{
    let mut at: usize = from;
    while at < chars.len() && chars[at] == '/'
        invariant
            from <= at <= chars.len(),
            strip_slashes(chars@.skip(at as int)) == strip_slashes(chars@.skip(from as int)),
        decreases chars.len() - at,
    {
        assert(chars@.skip(at as int).skip(1) == chars@.skip(at + 1));
        at += 1;
    }
    at
}

/// A request path without its leading slashes.
pub fn without_leading_slashes(path: &Vec<char>) -> (out: Vec<char>)
    ensures
        out@ == strip_slashes(path@),
{
    let at = skip_slashes(path, 0);
    assert(path@.skip(0) == path@);
    assert(path@.skip(at as int) == path@.subrange(at as int, path.len() as int));
    part_of(path, at, path.len())
}

/// Appends `below` to the directory `root`.
pub fn join_paths(root: &Vec<char>, below: &Vec<char>) -> (out: Vec<char>)
    ensures
        out@ == join(root@, below@),
{
    let mut out: Vec<char> = Vec::new();
    let mut i: usize = 0;
    while i < root.len()
        invariant
            i <= root.len(),
            out@ == root@.take(i as int),
        decreases root.len() - i,
    {
        out.push(root[i]);
        i += 1;
    }
    assert(root@.take(root.len() as int) == root@);
    if root.len() > 0 && root[root.len() - 1] != '/' {
        out.push('/');
    }
    let ghost start = out@;
    let mut j: usize = 0;
    while j < below.len()
        invariant
            j <= below.len(),
            out@ == start + below@.take(j as int),
        decreases below.len() - j,
    {
        out.push(below[j]);
        assert(below@.take(j + 1) == below@.take(j as int).push(below@[j as int]));
        j += 1;
    }
    assert(below@.take(below.len() as int) == below@);
    assert(start + below@ == join(root@, below@)) by {
        if root.len() == 0 {
            assert(start + below@ == below@);
        }
    }
    out
}

/// The part of `path` below `root`.
pub fn relative_path(path: &Vec<char>, root: &Vec<char>) -> (out: Vec<char>)
    ensures
        out@ == relative_to(path@, root@),
{
    let mut under: bool = root.len() <= path.len();
    let mut i: usize = 0;
    while under && i < root.len()
        invariant
            i <= root.len(),
            under ==> root.len() <= path.len(),
            under ==> forall|j: int| 0 <= j < i ==> root@[j] == path@[j],
            !under ==> !root@.is_prefix_of(path@),
        decreases root.len() - i, under as int,
    {
        if root[i] != path[i] {
            under = false;
        } else {
            i += 1;
        }
    }
    if under {
        assert(root@.is_prefix_of(path@));
        under = root.len() == 0 || path.len() == root.len() || root[root.len() - 1] == '/'
            || path[root.len()] == '/';
    }
    if under {
        let at = skip_slashes(path, root.len());
        assert(path@.skip(at as int) == path@.subrange(at as int, path.len() as int));
        part_of(path, at, path.len())
    } else {
        let mut out: Vec<char> = Vec::new();
        out.push('/');
        assert(out@ == seq!['/']);
        out
    }
}

/// Index of the last `c` in `chars`, if there is one.
pub fn find_last(chars: &Vec<char>, c: char) -> (at: Option<usize>)
    ensures
        (match at {
            Some(i) => i < chars.len() && i == last_position(chars@, c),
            None => last_position(chars@, c) == -1,
        }),
{
    let mut i: usize = chars.len();
    assert(chars@.take(chars.len() as int) == chars@);
    while i > 0 && chars[i - 1] != c
        invariant
            i <= chars.len(),
            last_position(chars@, c) == last_position(chars@.take(i as int), c),
        decreases i,
    {
        assert(chars@.take(i as int).drop_last() == chars@.take(i - 1));
        i -= 1;
    }
    if i == 0 {
        assert(chars@.take(0).len() == 0);
        None
    } else {
        assert(chars@.take(i as int).last() == c);
        Some(i - 1)
    }
}

/// The last segment of `path`.
pub fn file_name_of(path: &Vec<char>) -> (out: Vec<char>)
    ensures
        out@ == file_name(path@),
{
    let from: usize = match find_last(path, '/') {
        Some(i) => i + 1,
        None => 0,
    };
    assert(path@.skip(from as int) == path@.subrange(from as int, path.len() as int));
    part_of(path, from, path.len())
}

/// The extension of a file name.
pub fn extension_of(name: &Vec<char>) -> (out: Vec<char>)
    ensures
        out@ == extension(name@),
{
    match find_last(name, '.') {
        Some(i) => {
            if i == 0 {
                Vec::new()
            } else {
                assert(name@.skip(i + 1) == name@.subrange(i + 1, name.len() as int));
                part_of(name, i + 1, name.len())
            }
        },
        None => Vec::new(),
    }
}

/// Whether `segment` is `..`.
fn is_parent(segment: &Vec<char>) -> (r: bool)
    ensures
        r == (segment@ == parent_segment()),
{
    let r = segment.len() == 2 && segment[0] == '.' && segment[1] == '.';
    assert(r ==> segment@ == parent_segment());
    r
}

/// Whether `segment` is `.`.
fn is_self(segment: &Vec<char>) -> (r: bool)
    ensures
        r == (segment@ == self_segment()),
{
    let r = segment.len() == 1 && segment[0] == '.';
    assert(r ==> segment@ == self_segment());
    r
}

/// The texts that the vectors hold.
pub open spec fn texts(segments: Seq<Vec<char>>) -> Seq<Seq<char>> {
    Seq::new(segments.len(), |i: int| segments[i]@)
}

/// Walks one complete segment.
fn close_segment(done: &mut Vec<Vec<char>>, segment: Vec<char>)
    ensures
        texts(final(done)@) == close(texts(old(done)@), segment@),
{
    if segment.len() == 0 || is_self(&segment) {
    } else if is_parent(&segment) {
        if done.len() > 0 {
            done.pop();
            assert(texts(done@) == texts(old(done)@).drop_last());
        }
    } else {
        done.push(segment);
        assert(texts(done@) == texts(old(done)@).push(segment@));
    }
}

/// The segments that `path` comes to once `.` and `..` are resolved lexically.
pub fn components_of(path: &Vec<char>) -> (done: Vec<Vec<char>>)
    ensures
        texts(done@) == components(path@),
{
    let mut done: Vec<Vec<char>> = Vec::new();
    let mut open: Vec<char> = Vec::new();
    let mut i: usize = 0;
    assert(texts(done@) == Seq::<Seq<char>>::empty());
    while i < path.len()
        invariant
            i <= path.len(),
            (texts(done@), open@) == scan(Seq::empty(), Seq::empty(), path@.take(i as int)),
        decreases path.len() - i,
    {
        assert(path@.take(i + 1).drop_last() == path@.take(i as int));
        if path[i] == '/' {
            close_segment(&mut done, open);
            open = Vec::new();
        } else {
            open.push(path[i]);
        }
        i += 1;
    }
    assert(path@.take(path.len() as int) == path@);
    close_segment(&mut done, open);
    done
}

/// Appends the segments, joined by slashes and with backslashes turned into slashes.
fn push_joined(out: &mut String, segments: &Vec<Vec<char>>)
    ensures
        final(out)@ == old(out)@ + slashed(joined(texts(segments@))),
{
    let ghost start = out@;
    let mut i: usize = 0;
    assert(texts(segments@).take(0) == Seq::<Seq<char>>::empty());
    assert(start + slashed(Seq::<char>::empty()) == start);
    while i < segments.len()
        invariant
            i <= segments.len(),
            out@ == start + slashed(joined(texts(segments@).take(i as int))),
        decreases segments.len() - i,
    {
        let ghost so_far = joined(texts(segments@).take(i as int));
        if i > 0 {
            push_char(out, '/');
        }
        let ghost lead = if i > 0 {
            so_far + seq!['/']
        } else {
            so_far
        };
        assert(out@ == start + slashed(lead));
        let segment = &segments[i];
        let mut j: usize = 0;
        while j < segment.len()
            invariant
                j <= segment.len(),
                out@ == start + slashed(lead + segment@.take(j as int)),
            decreases segment.len() - j,
        {
            let c = segment[j];
            push_char(
                out,
                if c == '\\' {
                    '/'
                } else {
                    c
                },
            );
            assert(segment@.take(j + 1) == segment@.take(j as int).push(c));
            assert(slashed(lead + segment@.take(j + 1)) == slashed(
                lead + segment@.take(j as int),
            ).push(
                if c == '\\' {
                    '/'
                } else {
                    c
                },
            ));
            j += 1;
        }
        assert(segment@.take(segment.len() as int) == segment@);
        assert(texts(segments@).take(i + 1).drop_last() == texts(segments@).take(i as int));
        assert(texts(segments@).take(i + 1).last() == segment@);
        assert(lead + segment@ == joined(texts(segments@).take(i + 1))) by {
            if i == 0 {
                assert(so_far == Seq::<char>::empty());
                assert(lead + segment@ == segment@);
            }
        }
        i += 1;
    }
    assert(texts(segments@).take(segments.len() as int) == texts(segments@));
}

/// The normal form of `path`, as text.
pub fn normal_form(path: &str) -> (out: String)
    ensures
        out@ == normalized(path@),
{
    let chars = chars_of(path);
    let segments = components_of(&chars);
    let mut out = String::new();
    if chars.len() > 0 && chars[0] == '/' {
        push_char(&mut out, '/');
    }
    let ghost lead = out@;
    push_joined(&mut out, &segments);
    assert(out@ == normalized(path@)) by {
        assert(slashed(lead) == lead);
        assert(slashed(lead + joined(components(path@))) == slashed(lead) + slashed(
            joined(components(path@)),
        ));
    }
    out
}

} // verus!
