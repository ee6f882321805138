use crate::path::{path_eq, paths_view, Path, PathModel};
use vstd::prelude::*;

verus! {

/// Mathematical model of the filesystem facts a resolution consults:
/// which paths name regular files, which name directories, and which
/// cannot be probed at all (a permission fault or a similar error that
/// is not plain absence).
pub struct FsModel {
    pub files: Set<PathModel>,
    pub dirs: Set<PathModel>,
    pub denied: Set<PathModel>,
}

/// The filesystem facts one resolution works against. A caller that
/// resolves against a real disk records the outcomes of its probes here;
/// a test records a fixture tree. The resolver itself never touches a
/// filesystem.
#[derive(Debug)]
pub struct FileSystem {
    pub files: Vec<Path>,
    pub dirs: Vec<Path>,
    pub denied: Vec<Path>,
}

/// The set of path models a list of paths stands for.
pub open spec fn paths_set(v: Seq<Path>) -> Set<PathModel> {
    paths_view(v).to_set()
}

impl View for FileSystem {
    type V = FsModel;

    open spec fn view(&self) -> FsModel {
        FsModel {
            files: paths_set(self.files@),
            dirs: paths_set(self.dirs@),
            denied: paths_set(self.denied@),
        }
    }
}

/// Pushing a path onto a list inserts its model into the list's set.
proof fn lemma_paths_set_push(v: Seq<Path>, p: Path)
    ensures
        paths_set(v.push(p)) == paths_set(v).insert(p@),
{
    assert(paths_view(v.push(p)).len() == v.len() + 1);
    assert forall|x: PathModel| paths_view(v.push(p)).contains(x) implies paths_set(v).insert(
        p@,
    ).contains(x) by {
        let i = choose|i: int|
            0 <= i < paths_view(v.push(p)).len() && paths_view(v.push(p))[i] == x;
        if i < v.len() {
            assert(paths_view(v)[i] == x);
            assert(paths_view(v).contains(x));
        } else {
            assert(x == p@);
        }
    }
    assert forall|x: PathModel| paths_set(v).insert(p@).contains(x) implies paths_view(
        v.push(p),
    ).contains(x) by {
        if x == p@ {
            assert(paths_view(v.push(p))[v.len() as int] == x);
        } else {
            let i = choose|i: int| 0 <= i < paths_view(v).len() && paths_view(v)[i] == x;
            assert(paths_view(v.push(p))[i] == x);
        }
    }
    assert(paths_set(v.push(p)) =~= paths_set(v).insert(p@));
}

/// Whether the model of `p` occurs in `v`.
fn contains_path(v: &Vec<Path>, p: &Path) -> (r: bool)
    ensures
        r == paths_set(v@).contains(p@),
{
    let n = v.len();
    let mut i: usize = 0;
    while i < n
        invariant
            i <= n,
            n == v@.len(),
            forall|k: int| 0 <= k < i ==> paths_view(v@)[k] != p@,
        decreases n - i,
    {
        if path_eq(&v[i], p) {
            proof {
                assert(paths_view(v@)[i as int] == p@);
                assert(paths_view(v@).contains(p@));
            }
            return true;
        }
        proof {
            assert(paths_view(v@)[i as int] == v@[i as int]@);
        }
        i = i + 1;
    }
    proof {
        assert(paths_view(v@).len() == n);
        assert(!paths_view(v@).contains(p@));
    }
    false
}

impl FileSystem {
    /// A filesystem with no recorded facts.
    pub fn new() -> (r: FileSystem)
        ensures
            r@.files == Set::<PathModel>::empty(),
            r@.dirs == Set::<PathModel>::empty(),
            r@.denied == Set::<PathModel>::empty(),
    {
        let r = FileSystem { files: Vec::new(), dirs: Vec::new(), denied: Vec::new() };
        proof {
            assert(paths_set(Seq::<Path>::empty()) =~= Set::<PathModel>::empty());
        }
        r
    }

    /// Records that `p` names a regular file.
    pub fn add_file(&mut self, p: Path)
        ensures
            final(self)@.files == old(self)@.files.insert(p@),
            final(self)@.dirs == old(self)@.dirs,
            final(self)@.denied == old(self)@.denied,
    {
        proof {
            lemma_paths_set_push(self.files@, p);
        }
        self.files.push(p);
    }

    /// Records that `p` names a directory.
    pub fn add_dir(&mut self, p: Path)
        ensures
            final(self)@.dirs == old(self)@.dirs.insert(p@),
            final(self)@.files == old(self)@.files,
            final(self)@.denied == old(self)@.denied,
    {
        proof {
            lemma_paths_set_push(self.dirs@, p);
        }
        self.dirs.push(p);
    }

    /// Records that probing `p` fails with an error other than absence.
    pub fn add_denied(&mut self, p: Path)
        ensures
            final(self)@.denied == old(self)@.denied.insert(p@),
            final(self)@.files == old(self)@.files,
            final(self)@.dirs == old(self)@.dirs,
    {
        proof {
            lemma_paths_set_push(self.denied@, p);
        }
        self.denied.push(p);
    }

    /// Whether `p` names a regular file.
    pub fn is_file(&self, p: &Path) -> (r: bool)
        ensures
            r == self@.files.contains(p@),
    {
        contains_path(&self.files, p)
    }

    /// Whether `p` names a directory.
    pub fn is_dir(&self, p: &Path) -> (r: bool)
        ensures
            r == self@.dirs.contains(p@),
    {
        contains_path(&self.dirs, p)
    }

    /// Whether probing `p` fails with an error other than absence.
    pub fn is_denied(&self, p: &Path) -> (r: bool)
        ensures
            r == self@.denied.contains(p@),
    {
        contains_path(&self.denied, p)
    }
}

/// Outcome of the canonicalization probe on a path.
#[derive(PartialEq, Eq, Structural, Clone, Copy, Debug)]
pub enum ProbeOutcome {
    /// The path exists; in this model, its canonical spelling is itself.
    Exists,
    /// Nothing exists under the path.
    Missing,
    /// The probe failed for a reason other than absence.
    Denied,
}

/// Canonicalization against the recorded facts. The model keeps no
/// symlink table, so an existing path is its own canonical form; the
/// probe reports existence, absence, or a fault.
pub open spec fn canonicalize_spec(fs: FsModel, p: PathModel) -> ProbeOutcome {
    if fs.denied.contains(p) {
        ProbeOutcome::Denied
    } else if fs.files.contains(p) || fs.dirs.contains(p) {
        ProbeOutcome::Exists
    } else {
        ProbeOutcome::Missing
    }
}

/// Probes a path for existence, as the canonicalization step of a
/// resolution does.
pub fn canonicalize(fs: &FileSystem, p: &Path) -> (r: ProbeOutcome)
    ensures
        r == canonicalize_spec(fs@, p@),
{
    if fs.is_denied(p) {
        ProbeOutcome::Denied
    } else if fs.is_file(p) || fs.is_dir(p) {
        ProbeOutcome::Exists
    } else {
        ProbeOutcome::Missing
    }
}

} // verus!
