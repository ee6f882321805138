use vstd::prelude::*;

verus! {

/// Mathematical model of a path: whether it is absolute, and its segments,
/// each segment a sequence of characters.
pub struct PathModel {
    pub absolute: bool,
    pub segments: Seq<Seq<char>>,
}

/// A filesystem path split into segments. `.` and `..` occur as ordinary
/// segments; lexical normalization collapses them.
#[derive(Debug)]
pub struct Path {
    pub absolute: bool,
    pub segments: Vec<String>,
}

/// The segment sequence a `Vec<String>` stands for.
pub open spec fn segs_view(segs: Seq<String>) -> Seq<Seq<char>> {
    segs.map_values(|s: String| s@)
}

impl View for Path {
    type V = PathModel;

    open spec fn view(&self) -> PathModel {
        PathModel { absolute: self.absolute, segments: segs_view(self.segments@) }
    }
}

/// The models of a sequence of paths.
pub open spec fn paths_view(v: Seq<Path>) -> Seq<PathModel> {
    v.map_values(|p: Path| p@)
}

impl Path {
    /// Builds a path from its parts.
    pub fn new(absolute: bool, segments: Vec<String>) -> (r: Path)
        ensures
            r.absolute == absolute,
            r.segments == segments,
    {
        Path { absolute, segments }
    }
}

impl Clone for Path {
    fn clone(&self) -> (r: Self)
        ensures
            r@ == self@,
    {
        let segs = self.segments.clone();
        let r = Path { absolute: self.absolute, segments: segs };
        proof {
            assert forall|i: int| 0 <= i < self.segments@.len() implies r.segments@[i]@
                == self.segments@[i]@ by {
                assert(cloned::<String>(self.segments[i], r.segments[i]));
            }
            assert(r@.segments =~= self@.segments);
        }
        r
    }
}

/// The segment `.`: stays in place during normalization.
pub open spec fn dot() -> Seq<char> {
    "."@
}

/// The segment `..`: ascends one level during normalization.
pub open spec fn dotdot() -> Seq<char> {
    ".."@
}

/// The wildcard segment `*` of an alias pattern.
pub open spec fn star() -> Seq<char> {
    "*"@
}

/// Compares two segment strings by their characters.
pub(crate) fn seg_eq(a: &String, b: &String) -> (r: bool)
    ensures
        r == (a@ == b@),
{
    a.eq(b)
}

/// Compares two paths by value: same absoluteness, same segments.
pub fn path_eq(a: &Path, b: &Path) -> (r: bool)
    ensures
        r == (a@ == b@),
{
    if a.absolute != b.absolute {
        assert(a@.absolute != b@.absolute);
        return false;
    }
    if a.segments.len() != b.segments.len() {
        assert(a@.segments.len() != b@.segments.len());
        return false;
    }
    let n = a.segments.len();
    let mut i: usize = 0;
    while i < n
        invariant
            n == a.segments@.len(),
            n == b.segments@.len(),
            a.absolute == b.absolute,
            i <= n,
            forall|k: int| 0 <= k < i ==> a.segments@[k]@ == b.segments@[k]@,
        decreases n - i,
    {
        let sa = &a.segments[i];
        let sb = &b.segments[i];
        if !seg_eq(sa, sb) {
            assert(a@.segments[i as int] != b@.segments[i as int]);
            return false;
        }
        i += 1;
    }
    proof {
        assert(a@.segments =~= b@.segments);
    }
    true
}

/// True of the segment `.`.
pub(crate) fn is_dot(s: &String) -> (r: bool)
    ensures
        r == (s@ == dot()),
{
    seg_eq(s, &String::from_str("."))
}

/// True of the segment `..`.
pub(crate) fn is_dotdot(s: &String) -> (r: bool)
    ensures
        r == (s@ == dotdot()),
{
    seg_eq(s, &String::from_str(".."))
}

/// True of the wildcard segment `*`.
pub(crate) fn is_star(s: &String) -> (r: bool)
    ensures
        r == (s@ == star()),
{
    seg_eq(s, &String::from_str("*"))
}

/// The index of the last `.` in a segment that lies strictly before
/// position `i` and at position `1` or later, or `-1` if there is none.
/// A leading dot never counts: a segment such as a hidden file's name
/// has no extension.
pub open spec fn last_dot_from(s: Seq<char>, i: int) -> int
    decreases i,
{
    if i <= 1 {
        -1
    } else if s[i - 1] == '.' {
        i - 1
    } else {
        last_dot_from(s, i - 1)
    }
}

/// The index of the `.` that starts a segment's extension, or `-1`.
pub open spec fn seg_last_dot(s: Seq<char>) -> int {
    last_dot_from(s, s.len() as int)
}

/// Whether a segment carries an extension. `..` never does.
pub open spec fn seg_has_extension(s: Seq<char>) -> bool {
    s != dotdot() && seg_last_dot(s) >= 0
}

/// Whether a path's last segment carries an extension.
pub open spec fn path_has_extension(p: PathModel) -> bool {
    p.segments.len() > 0 && seg_has_extension(p.segments.last())
}

/// The path without its last segment.
pub open spec fn parent_spec(p: PathModel) -> PathModel {
    PathModel { absolute: p.absolute, segments: p.segments.drop_last() }
}

/// Joining `t` onto `base`: an absolute `t` replaces `base` entirely,
/// a relative `t` appends its segments.
pub open spec fn join_spec(base: PathModel, t: PathModel) -> PathModel {
    if t.absolute {
        t
    } else {
        PathModel { absolute: base.absolute, segments: base.segments + t.segments }
    }
}

/// The path extended by one further segment.
pub open spec fn child_spec(p: PathModel, seg: Seq<char>) -> PathModel {
    PathModel { absolute: p.absolute, segments: p.segments.push(seg) }
}

/// The segment with its extension replaced by `ext`, or with `.ext`
/// appended when it has no extension.
pub open spec fn seg_with_extension(s: Seq<char>, ext: Seq<char>) -> Seq<char> {
    if seg_last_dot(s) >= 0 {
        s.take(seg_last_dot(s)) + dot() + ext
    } else {
        s + dot() + ext
    }
}

/// The path with the extension of its last segment replaced by `ext`.
/// A path without segments, or ending in `.` or `..`, has no file name
/// and stays unchanged.
pub open spec fn with_extension_spec(p: PathModel, ext: Seq<char>) -> PathModel {
    if p.segments.len() == 0 || p.segments.last() == dot() || p.segments.last() == dotdot() {
        p
    } else {
        PathModel {
            absolute: p.absolute,
            segments: p.segments.update(
                p.segments.len() - 1,
                seg_with_extension(p.segments.last(), ext),
            ),
        }
    }
}

/// Finds the `.` that starts a segment's extension.
pub(crate) fn seg_last_dot_exec(s: &String) -> (r: Option<usize>)
    ensures
        match r {
            Some(i) => seg_last_dot(s@) == i as int && 1 <= i < s@.len(),
            None => seg_last_dot(s@) == -1,
        },
{
    let st = s.as_str();
    let n = st.unicode_len();
    let mut i: usize = n;
    while i > 1
        invariant
            i <= n,
            n == s@.len(),
            st@ == s@,
            last_dot_from(s@, n as int) == last_dot_from(s@, i as int),
        decreases i,
    {
        let c = st.get_char(i - 1);
        if c == '.' {
            return Some(i - 1);
        }
        i = i - 1;
    }
    None
}

/// Whether the path's last segment carries an extension.
pub fn has_extension(p: &Path) -> (r: bool)
    ensures
        r == path_has_extension(p@),
{
    let n = p.segments.len();
    if n == 0 {
        return false;
    }
    let last = &p.segments[n - 1];
    if is_dotdot(last) {
        return false;
    }
    match seg_last_dot_exec(last) {
        Some(_) => true,
        None => false,
    }
}

/// The path without its last segment.
pub fn parent(p: &Path) -> (r: Path)
    requires
        p@.segments.len() > 0,
    ensures
        r@ == parent_spec(p@),
{
    let mut q = p.clone();
    let _dropped = q.segments.pop();
    proof {
        assert(q@.segments =~= parent_spec(p@).segments);
    }
    q
}

/// Joins `t` onto `base`; an absolute `t` replaces `base`.
pub fn join(base: &Path, t: &Path) -> (r: Path)
    ensures
        r@ == join_spec(base@, t@),
{
    if t.absolute {
        return t.clone();
    }
    let mut q = base.clone();
    let n = t.segments.len();
    let mut i: usize = 0;
    while i < n
        invariant
            i <= n,
            n == t.segments.len(),
            q.absolute == base.absolute,
            q@.segments == base@.segments + t@.segments.take(i as int),
        decreases n - i,
    {
        let v = t.segments[i].clone();
        proof {
            assert(v@ == t@.segments[i as int]);
        }
        let ghost prev = q.segments@;
        proof {
            assert(segs_view(prev) == base@.segments + t@.segments.take(i as int));
            assert(segs_view(prev).len() == prev.len());
            assert(segs_view(t.segments@).len() == t.segments@.len());
            assert(prev.len() == base@.segments.len() + i);
        }
        q.segments.push(v);
        proof {
            assert(q.segments@ == prev.push(v));
            assert(q@.segments.len() == prev.len() + 1);
            assert(t@.segments.len() == n);
            assert forall|k: int| 0 <= k < q.segments@.len() implies q@.segments[k] == (
            base@.segments + t@.segments.take(i + 1))[k] by {
                assert(q@.segments[k] == q.segments@[k]@);
                if k < prev.len() {
                    assert(q.segments@[k] == prev[k]);
                    assert(prev[k]@ == (base@.segments + t@.segments.take(i as int))[k]);
                } else {
                    assert(q.segments@[k] == v);
                }
            }
            assert(q@.segments =~= base@.segments + t@.segments.take(i + 1));
        }
        i = i + 1;
    }
    proof {
        assert(t@.segments.take(n as int) =~= t@.segments);
    }
    q
}

/// Extends the path by one further segment.
pub fn child(p: &Path, seg: &String) -> (r: Path)
    ensures
        r@ == child_spec(p@, seg@),
{
    let mut q = p.clone();
    q.segments.push(seg.clone());
    proof {
        assert(q@.segments =~= child_spec(p@, seg@).segments);
    }
    q
}

/// Replaces the extension of the path's last segment by `ext`.
pub fn with_extension(p: &Path, ext: &String) -> (r: Path)
    ensures
        r@ == with_extension_spec(p@, ext@),
{
    let n = p.segments.len();
    if n == 0 {
        return p.clone();
    }
    let last = &p.segments[n - 1];
    if is_dot(last) || is_dotdot(last) {
        return p.clone();
    }
    let new_seg = seg_with_extension_exec(last, ext);
    let mut q = p.clone();
    let _dropped = q.segments.pop();
    q.segments.push(new_seg);
    proof {
        assert(q@.segments =~= with_extension_spec(p@, ext@).segments);
    }
    q
}

/// Builds the segment with its extension replaced by `ext`.
fn seg_with_extension_exec(s: &String, ext: &String) -> (r: String)
    ensures
        r@ == seg_with_extension(s@, ext@),
{
    let mut r: String = match seg_last_dot_exec(s) {
        Some(i) => {
            let stem = s.as_str().substring_char(0, i);
            proof {
                assert(stem@ =~= s@.take(seg_last_dot(s@)));
            }
            String::from_str(stem)
        },
        None => s.clone(),
    };
    r.append(".");
    r.append(ext.as_str());
    r
}

/// The segments from position `k` on; empty when `k` lies past the end.
pub open spec fn skip_clamped(s: Seq<Seq<char>>, k: int) -> Seq<Seq<char>> {
    if k <= s.len() {
        s.skip(k)
    } else {
        Seq::empty()
    }
}

/// Copies the segments of `p` with indices in `from .. to`.
fn copy_range(p: &Path, from: usize, to: usize) -> (r: Vec<String>)
    requires
        from <= to <= p.segments@.len(),
    ensures
        segs_view(r@) == p@.segments.subrange(from as int, to as int),
{
    let mut acc: Vec<String> = Vec::new();
    let mut i: usize = from;
    proof {
        assert(p@.segments.len() == p.segments@.len());
        assert(segs_view(acc@) =~= p@.segments.subrange(from as int, from as int));
    }
    while i < to
        invariant
            from <= i <= to,
            to <= p.segments@.len(),
            p@.segments.len() == p.segments@.len(),
            segs_view(acc@) == p@.segments.subrange(from as int, i as int),
        decreases to - i,
    {
        let v = p.segments[i].clone();
        proof {
            assert(v@ == p@.segments[i as int]);
        }
        let ghost prev = acc@;
        acc.push(v);
        proof {
            assert(segs_view(prev).len() == prev.len());
            assert forall|k: int| 0 <= k < acc@.len() implies segs_view(acc@)[k] == p@.segments
                .subrange(from as int, i + 1)[k] by {
                assert(segs_view(acc@)[k] == acc@[k]@);
                if k < prev.len() {
                    assert(acc@[k] == prev[k]);
                    assert(segs_view(prev)[k] == p@.segments.subrange(from as int, i as int)[k]);
                } else {
                    assert(acc@[k] == v);
                }
            }
            assert(segs_view(acc@).len() == acc@.len());
            assert(segs_view(acc@) =~= p@.segments.subrange(from as int, i + 1));
        }
        i = i + 1;
    }
    acc
}

/// The path cut down to its first `k` segments.
pub fn take_prefix(p: &Path, k: usize) -> (r: Path)
    requires
        k <= p@.segments.len(),
    ensures
        r@ == (PathModel { absolute: p@.absolute, segments: p@.segments.take(k as int) }),
{
    proof {
        assert(p@.segments.len() == p.segments@.len());
    }
    let segs = copy_range(p, 0, k);
    proof {
        assert(p@.segments.take(k as int) =~= p@.segments.subrange(0, k as int));
    }
    Path { absolute: p.absolute, segments: segs }
}

/// The relative path made of the segments of `p` from position `k` on.
pub fn suffix_from(p: &Path, k: usize) -> (r: Path)
    ensures
        r@ == (PathModel { absolute: false, segments: skip_clamped(p@.segments, k as int) }),
{
    proof {
        assert(p@.segments.len() == p.segments@.len());
    }
    let n = p.segments.len();
    if k >= n {
        let segs: Vec<String> = Vec::new();
        proof {
            assert(segs_view(segs@) =~= skip_clamped(p@.segments, k as int));
        }
        return Path { absolute: false, segments: segs };
    }
    let segs = copy_range(p, k, n);
    proof {
        assert(p@.segments.skip(k as int) =~= p@.segments.subrange(k as int, n as int));
    }
    Path { absolute: false, segments: segs }
}

/// The separator character between path segments.
pub open spec fn slash() -> Seq<char> {
    "/"@
}

/// The spelling of `s` split at every separator, kept verbatim: empty
/// pieces included, one more piece than there are separators.
pub open spec fn raw_split(s: Seq<char>) -> Seq<Seq<char>>
    decreases s.len(),
{
    if s.len() == 0 {
        seq![Seq::<char>::empty()]
    } else {
        let rest = raw_split(s.drop_last());
        if s.last() == '/' {
            rest.push(Seq::empty())
        } else {
            rest.update(rest.len() - 1, rest.last().push(s.last()))
        }
    }
}

/// A split spelling always holds at least one piece.
proof fn lemma_raw_split_nonempty(s: Seq<char>)
    ensures
        raw_split(s).len() >= 1,
    decreases s.len(),
{
    if s.len() != 0 {
        lemma_raw_split_nonempty(s.drop_last());
    }
}

/// One step of segment filtering: an empty piece is dropped, and so is a
/// `.` everywhere but at the very start of a relative path, matching how
/// a path's components are read.
pub open spec fn keep_segment(acc: Seq<Seq<char>>, seg: Seq<char>, absolute: bool) -> Seq<
    Seq<char>,
> {
    if seg.len() == 0 {
        acc
    } else if seg == dot() && (absolute || acc.len() > 0) {
        acc
    } else {
        acc.push(seg)
    }
}

/// The pieces of a split spelling that count as segments.
pub open spec fn filter_segments(raw: Seq<Seq<char>>, absolute: bool) -> Seq<Seq<char>>
    decreases raw.len(),
{
    if raw.len() == 0 {
        Seq::empty()
    } else {
        keep_segment(filter_segments(raw.drop_last(), absolute), raw.last(), absolute)
    }
}

/// The path a spelling stands for: absolute when it starts with the
/// separator, with the kept pieces as its segments.
pub open spec fn parse_spec(s: Seq<char>) -> PathModel {
    let absolute = s.len() > 0 && s[0] == '/';
    PathModel { absolute, segments: filter_segments(raw_split(s), absolute) }
}

/// Applies one filtering step to the segments gathered so far: the piece
/// of `s` between `start` and `end` is pushed when it counts as a segment.
fn push_piece(s: &str, start: usize, end: usize, absolute: bool, segments: &mut Vec<String>)
    requires
        start <= end <= s@.len(),
    ensures
        segs_view(final(segments)@) == keep_segment(
            segs_view(old(segments)@),
            s@.subrange(start as int, end as int),
            absolute,
        ),
{
    let ghost part = s@.subrange(start as int, end as int);
    if end == start {
        proof {
            assert(part.len() == 0);
        }
        return ;
    }
    proof {
        reveal_strlit(".");
    }
    if end - start == 1 && s.get_char(start) == '.' {
        proof {
            assert(part =~= dot());
        }
        if absolute || segments.len() > 0 {
            proof {
                assert(segs_view(segments@).len() == segments@.len());
            }
            return ;
        }
    }
    proof {
        assert(segs_view(segments@).len() == segments@.len());
        if part.len() != 1 {
            assert(part != dot());
        } else if part[0] != '.' {
            assert(part != dot());
        }
    }
    let piece = String::from_str(s.substring_char(start, end));
    proof {
        assert(piece@ == part);
    }
    let ghost prev = segments@;
    segments.push(piece);
    proof {
        assert forall|k: int| 0 <= k < segments@.len() implies segs_view(segments@)[k] == segs_view(
            prev,
        ).push(part)[k] by {
            assert(segs_view(segments@)[k] == segments@[k]@);
            if k < prev.len() {
                assert(segments@[k] == prev[k]);
                assert(segs_view(prev)[k] == prev[k]@);
            }
        }
        assert(segs_view(segments@) =~= segs_view(prev).push(part));
    }
}

/// Reads a path from its slash-separated spelling.
pub fn parse_path(s: &str) -> (r: Path)
    ensures
        r@ == parse_spec(s@),
{
    let n = s.unicode_len();
    let absolute = if n > 0 {
        s.get_char(0) == '/'
    } else {
        false
    };
    let mut segments: Vec<String> = Vec::new();
    let mut start: usize = 0;
    let mut i: usize = 0;
    let ghost mut raw_done: Seq<Seq<char>> = Seq::empty();
    proof {
        assert(s@.take(0) =~= Seq::<char>::empty());
        assert(s@.subrange(0, 0) =~= Seq::<char>::empty());
        assert(raw_split(s@.take(0)) =~= raw_done.push(s@.subrange(0, 0)));
        assert(segs_view(segments@) =~= filter_segments(raw_done, absolute));
    }
    while i < n
        invariant
            start <= i <= n,
            n == s@.len(),
            absolute == (s@.len() > 0 && s@[0] == '/'),
            raw_split(s@.take(i as int)) == raw_done.push(s@.subrange(start as int, i as int)),
            segs_view(segments@) == filter_segments(raw_done, absolute),
        decreases n - i,
    {
        let c = s.get_char(i);
        proof {
            assert(s@.take(i + 1).drop_last() =~= s@.take(i as int));
            assert(s@.take(i + 1).last() == s@[i as int]);
        }
        if c == '/' {
            let ghost part = s@.subrange(start as int, i as int);
            push_piece(s, start, i, absolute, &mut segments);
            proof {
                lemma_raw_split_nonempty(s@.take(i as int));
                let new_raw = raw_done.push(part);
                assert(new_raw.drop_last() =~= raw_done);
                assert(filter_segments(new_raw, absolute) == keep_segment(
                    filter_segments(raw_done, absolute),
                    part,
                    absolute,
                ));
                assert(s@.subrange(i + 1, i + 1) =~= Seq::<char>::empty());
                assert(raw_split(s@.take(i + 1)) =~= new_raw.push(s@.subrange(i + 1, i + 1)));
                raw_done = new_raw;
            }
            start = i + 1;
        } else {
            proof {
                let prev_raw = raw_done.push(s@.subrange(start as int, i as int));
                assert(s@.subrange(start as int, i + 1) =~= s@.subrange(start as int, i as int).push(
                    s@[i as int],
                ));
                assert(prev_raw.last() == s@.subrange(start as int, i as int));
                assert(prev_raw.update(prev_raw.len() - 1, prev_raw.last().push(s@[i as int]))
                    =~= raw_done.push(s@.subrange(start as int, i + 1)));
            }
        }
        i = i + 1;
    }
    let ghost part = s@.subrange(start as int, n as int);
    push_piece(s, start, n, absolute, &mut segments);
    proof {
        assert(s@.take(n as int) =~= s@);
        let new_raw = raw_done.push(part);
        assert(new_raw.drop_last() =~= raw_done);
        assert(filter_segments(new_raw, absolute) == keep_segment(
            filter_segments(raw_done, absolute),
            part,
            absolute,
        ));
        assert(raw_split(s@) == new_raw);
        raw_done = new_raw;
    }
    Path { absolute, segments }
}

/// The characters of a segment sequence, separator-joined.
pub open spec fn segments_chars(segs: Seq<Seq<char>>) -> Seq<char>
    decreases segs.len(),
{
    if segs.len() == 0 {
        Seq::empty()
    } else if segs.len() == 1 {
        segs.first()
    } else {
        segments_chars(segs.drop_last()) + slash() + segs.last()
    }
}

/// The slash-separated spelling of a path.
pub open spec fn path_chars(p: PathModel) -> Seq<char> {
    if p.absolute {
        slash() + segments_chars(p.segments)
    } else {
        segments_chars(p.segments)
    }
}

impl Path {
    /// Writes the path back as its slash-separated spelling.
    pub fn render(&self) -> (r: String)
        ensures
            r@ == path_chars(self@),
    {
        let mut out = String::new();
        if self.absolute {
            out.append("/");
        }
        let ghost prefix: Seq<char> = if self.absolute {
            slash()
        } else {
            Seq::empty()
        };
        let n = self.segments.len();
        proof {
            assert(self@.segments.len() == n);
            assert(out@ =~= prefix + segments_chars(self@.segments.take(0)));
        }
        let mut i: usize = 0;
        while i < n
            invariant
                i <= n,
                n == self.segments@.len(),
                self@.segments.len() == n,
                prefix == (if self.absolute {
                    slash()
                } else {
                    Seq::<char>::empty()
                }),
                out@ == prefix + segments_chars(self@.segments.take(i as int)),
            decreases n - i,
        {
            proof {
                assert(self@.segments.take(i + 1).drop_last() =~= self@.segments.take(i as int));
                assert(self@.segments.take(i + 1).last() == self@.segments[i as int]);
                assert(self@.segments[i as int] == self.segments@[i as int]@);
            }
            if i > 0 {
                out.append("/");
            }
            out.append(self.segments[i].as_str());
            proof {
                if i == 0 {
                    assert(segments_chars(self@.segments.take(1)) == self@.segments[0]);
                }
                assert(out@ =~= prefix + segments_chars(self@.segments.take(i + 1)));
            }
            i = i + 1;
        }
        proof {
            assert(self@.segments.take(n as int) =~= self@.segments);
        }
        out
    }
}

/// Error from lexical normalization: the path ascends above its root,
/// or above the start of a relative path.
#[derive(PartialEq, Eq, Structural, Clone, Copy, Debug)]
pub enum NormalizeError {
    AscendsAboveRoot,
}

/// Lexical collapse of a segment sequence: `.` is dropped, `..` removes
/// the segment before it, anything else is kept. `None` when a `..`
/// finds nothing to remove.
pub open spec fn normalize_segments(segs: Seq<Seq<char>>) -> Option<Seq<Seq<char>>>
    decreases segs.len(),
{
    if segs.len() == 0 {
        Some(Seq::empty())
    } else {
        match normalize_segments(segs.drop_last()) {
            None => None,
            Some(acc) => {
                let s = segs.last();
                if s == dot() {
                    Some(acc)
                } else if s == dotdot() {
                    if acc.len() == 0 {
                        None
                    } else {
                        Some(acc.drop_last())
                    }
                } else {
                    Some(acc.push(s))
                }
            },
        }
    }
}

/// Lexical normalization of a path; `None` when it ascends above its start.
pub open spec fn normalize_spec(p: PathModel) -> Option<PathModel> {
    match normalize_segments(p.segments) {
        None => None,
        Some(s) => Some(PathModel { absolute: p.absolute, segments: s }),
    }
}

/// A prefix that already failed to normalize dooms the whole sequence.
proof fn lemma_normalize_none_extends(segs: Seq<Seq<char>>, i: int)
    requires
        0 <= i <= segs.len(),
        normalize_segments(segs.take(i)) is None,
    ensures
        normalize_segments(segs) is None,
    decreases segs.len() - i,
{
    if i == segs.len() {
        assert(segs.take(i) =~= segs);
    } else {
        assert(segs.take(i + 1).drop_last() =~= segs.take(i));
        lemma_normalize_none_extends(segs, i + 1);
    }
}

/// Lexically collapses `.` and `..` segments, without looking at any
/// filesystem. Ascending above the root, or above the start of a relative
/// path, is reported as an error, never a crash.
pub fn normalize(p: &Path) -> (r: Result<Path, NormalizeError>)
    ensures
        match r {
            Ok(q) => normalize_spec(p@) == Some(q@),
            Err(_) => normalize_spec(p@) is None,
        },
{
    let mut acc: Vec<String> = Vec::new();
    let n = p.segments.len();
    let mut i: usize = 0;
    while i < n
        invariant
            i <= n,
            n == p.segments.len(),
            normalize_segments(p@.segments.take(i as int)) == Some(segs_view(acc@)),
        decreases n - i,
    {
        proof {
            assert(p@.segments.take(i + 1).drop_last() =~= p@.segments.take(i as int));
            assert(p@.segments.take(i + 1).last() == p@.segments[i as int]);
        }
        let s = &p.segments[i];
        if is_dot(s) {
            // the accumulator is unchanged
        } else if is_dotdot(s) {
            if acc.len() == 0 {
                proof {
                    assert(segs_view(acc@).len() == 0);
                    lemma_normalize_none_extends(p@.segments, i + 1);
                }
                return Err(NormalizeError::AscendsAboveRoot);
            }
            let _dropped = acc.pop();
            proof {
                assert(segs_view(acc@) =~= normalize_segments(p@.segments.take(i + 1)).unwrap());
            }
        } else {
            acc.push(s.clone());
            proof {
                assert(cloned::<String>(p.segments[i as int], acc@.last()));
                assert(segs_view(acc@) =~= normalize_segments(p@.segments.take(i + 1)).unwrap());
            }
        }
        i = i + 1;
    }
    proof {
        assert(p@.segments.take(n as int) =~= p@.segments);
    }
    Ok(Path { absolute: p.absolute, segments: acc })
}

} // verus!
