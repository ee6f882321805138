use crate::fs_model::{canonicalize, canonicalize_spec, FileSystem, FsModel, ProbeOutcome};
use crate::path::{
    child, child_spec, has_extension, is_star, join, join_spec, normalize, normalize_spec, parent,
    parent_spec, path_has_extension, seg_eq, skip_clamped, star, suffix_from, take_prefix,
    with_extension, with_extension_spec, Path, PathModel,
};
use crate::ts_config::{config_rules, rules_view, AliasRule, AliasRuleModel, UserTsConfig};
use vstd::prelude::*;

verus! {

/// A resolution failure. `NotFound`: no candidate file exists under any
/// expansion, or the joined path ascends above its root. `IOFailure`: a
/// filesystem probe failed for a reason other than absence.
#[derive(PartialEq, Eq, Structural, Clone, Copy, Debug)]
pub enum ResolveError {
    NotFound,
    IOFailure,
}

/// The index of the first wildcard segment at or after `i`, if any.
pub open spec fn first_star_from(segs: Seq<Seq<char>>, i: int) -> Option<int>
    decreases segs.len() - i,
{
    if i < 0 || i >= segs.len() {
        None
    } else if segs[i] == star() {
        Some(i)
    } else {
        first_star_from(segs, i + 1)
    }
}

/// A pattern's first wildcard index together with the pattern's part
/// before it; `None` for a pattern without a wildcard. Such a pattern is
/// never matched and never rewrites — it is skipped as unusable.
pub open spec fn before_star_spec(p: PathModel) -> Option<(int, PathModel)> {
    match first_star_from(p.segments, 0) {
        None => None,
        Some(i) => Some((i, PathModel { absolute: p.absolute, segments: p.segments.take(i) })),
    }
}

/// Finds a pattern's first wildcard segment and the part before it.
pub fn before_star(p: &Path) -> (r: Option<(usize, Path)>)
    ensures
        match r {
            Some(ib) => before_star_spec(p@) == Some((ib.0 as int, ib.1@)) && ib.0
                < p@.segments.len(),
            None => before_star_spec(p@) is None,
        },
{
    let n = p.segments.len();
    proof {
        assert(p@.segments.len() == p.segments@.len());
    }
    let mut i: usize = 0;
    while i < n
        invariant
            i <= n,
            n == p.segments@.len(),
            p@.segments.len() == n,
            first_star_from(p@.segments, 0) == first_star_from(p@.segments, i as int),
        decreases n - i,
    {
        proof {
            assert(p@.segments[i as int] == p.segments@[i as int]@);
        }
        if is_star(&p.segments[i]) {
            let before = take_prefix(p, i);
            return Some((i, before));
        }
        i = i + 1;
    }
    None
}

/// Whether a rule's key matches a relative specifier: the key is relative,
/// carries a wildcard, and its segments before the wildcard are exactly
/// the specifier's first segments.
pub open spec fn rule_matches(t: PathModel, key: PathModel) -> bool {
    &&& !key.absolute
    &&& match before_star_spec(key) {
        None => false,
        Some(ib) => ib.0 <= t.segments.len() && t.segments.take(ib.0) == ib.1.segments,
    }
}

/// Decides whether an alias key matches the specifier.
fn rule_matches_exec(t: &Path, key: &Path) -> (r: bool)
    ensures
        r == rule_matches(t@, key@),
{
    if key.absolute {
        return false;
    }
    match before_star(key) {
        None => false,
        Some((i, before)) => {
            proof {
                assert(t@.segments.len() == t.segments@.len());
                assert(before@.segments.len() == i);
            }
            if i > t.segments.len() {
                return false;
            }
            let mut k: usize = 0;
            while k < i
                invariant
                    k <= i,
                    i <= t.segments@.len(),
                    t@.segments.len() == t.segments@.len(),
                    before@.segments.len() == i,
                    before.segments@.len() == i,
                    before_star_spec(key@) == Some((i as int, before@)),
                    forall|m: int| 0 <= m < k ==> t@.segments[m] == before@.segments[m],
                decreases i - k,
            {
                proof {
                    assert(t@.segments[k as int] == t.segments@[k as int]@);
                    assert(before@.segments[k as int] == before.segments@[k as int]@);
                }
                if !seg_eq(&t.segments[k], &before.segments[k]) {
                    proof {
                        assert(t@.segments.take(i as int)[k as int] == t@.segments[k as int]);
                    }
                    return false;
                }
                k = k + 1;
            }
            proof {
                assert(t@.segments.take(i as int) =~= before@.segments);
            }
            true
        },
    }
}

/// The rewrite one substitution pattern yields: the pattern's part before
/// its wildcard, followed by the specifier's segments from one position
/// before the wildcard's own index. A pattern without a wildcard, or with
/// a leading wildcard, is unusable and yields nothing.
pub open spec fn rewrite_spec(t: PathModel, item: PathModel) -> Option<PathModel> {
    match before_star_spec(item) {
        None => None,
        Some(jb) => if jb.0 >= 1 {
            Some(
                PathModel {
                    absolute: jb.1.absolute,
                    segments: jb.1.segments + skip_clamped(t.segments, jb.0 - 1),
                },
            )
        } else {
            None
        },
    }
}

/// Builds the rewrite one substitution pattern yields.
fn rewrite_exec(t: &Path, item: &Path) -> (r: Option<Path>)
    ensures
        match r {
            Some(p) => rewrite_spec(t@, item@) == Some(p@),
            None => rewrite_spec(t@, item@) is None,
        },
{
    match before_star(item) {
        None => None,
        Some((j, before)) => {
            if j == 0 {
                return None;
            }
            let suffix = suffix_from(t, j - 1);
            let joined = join(&before, &suffix);
            Some(joined)
        },
    }
}

/// The first usable rewrite among a rule's substitution patterns.
pub open spec fn first_rewrite(t: PathModel, targets: Seq<PathModel>) -> Option<PathModel>
    decreases targets.len(),
{
    if targets.len() == 0 {
        None
    } else {
        match rewrite_spec(t, targets.first()) {
            Some(r) => Some(r),
            None => first_rewrite(t, targets.drop_first()),
        }
    }
}

/// Builds the first usable rewrite among a rule's substitution patterns.
fn first_rewrite_exec(t: &Path, targets: &Vec<Path>) -> (r: Option<Path>)
    ensures
        match r {
            Some(p) => first_rewrite(t@, crate::path::paths_view(targets@)) == Some(p@),
            None => first_rewrite(t@, crate::path::paths_view(targets@)) is None,
        },
{
    let ghost models = crate::path::paths_view(targets@);
    let n = targets.len();
    proof {
        assert(models.len() == n);
        assert(models.skip(0) =~= models);
    }
    let mut i: usize = 0;
    while i < n
        invariant
            i <= n,
            n == targets@.len(),
            models == crate::path::paths_view(targets@),
            models.len() == n,
            first_rewrite(t@, models) == first_rewrite(t@, models.skip(i as int)),
        decreases n - i,
    {
        proof {
            assert(models[i as int] == targets@[i as int]@);
            assert(models.skip(i as int).first() == models[i as int]);
            assert(models.skip(i as int).drop_first() =~= models.skip(i + 1));
        }
        match rewrite_exec(t, &targets[i]) {
            Some(p) => {
                return Some(p);
            },
            None => {},
        }
        i = i + 1;
    }
    proof {
        assert(models.skip(n as int) =~= Seq::<PathModel>::empty());
    }
    None
}

/// The first rewrite over the rules, in declaration order: the first rule
/// whose key matches the specifier and that offers a usable substitution
/// wins; later rules are not consulted for it.
pub open spec fn alias_search(t: PathModel, rules: Seq<AliasRuleModel>) -> Option<PathModel>
    decreases rules.len(),
{
    if rules.len() == 0 {
        None
    } else {
        let rule = rules.first();
        if rule_matches(t, rule.key) && first_rewrite(t, rule.targets) is Some {
            first_rewrite(t, rule.targets)
        } else {
            alias_search(t, rules.drop_first())
        }
    }
}

/// Alias application. An absolute specifier is returned unchanged: aliases
/// never apply to it. A relative one is rewritten by the first matching
/// rule, in declaration order. `None` means no rule rewrote the specifier,
/// and the caller falls back to plain relative resolution from the
/// subject file.
pub open spec fn apply_alias_spec(rules: Seq<AliasRuleModel>, t: PathModel) -> Option<PathModel> {
    if t.absolute {
        Some(t)
    } else if t.segments.len() == 0 {
        None
    } else {
        alias_search(t, rules)
    }
}

/// Rewrites a specifier against the configured alias table.
pub fn apply_alias(config: &UserTsConfig, target_pb: &Path) -> (r: Option<Path>)
    ensures
        match r {
            Some(p) => apply_alias_spec(config_rules(*config), target_pb@) == Some(p@),
            None => apply_alias_spec(config_rules(*config), target_pb@) is None,
        },
{
    if target_pb.absolute {
        return Some(target_pb.clone());
    }
    proof {
        assert(target_pb@.segments.len() == target_pb.segments@.len());
    }
    if target_pb.segments.len() == 0 {
        return None;
    }
    let rules: &Vec<AliasRule> = match &config.compiler_options {
        Some(co) => match &co.paths {
            Some(rules) => rules,
            None => {
                return None;
            },
        },
        None => {
            return None;
        },
    };
    let ghost models = rules_view(rules@);
    let n = rules.len();
    proof {
        assert(models.len() == n);
        assert(config_rules(*config) == models);
        assert(models.skip(0) =~= models);
    }
    let mut i: usize = 0;
    while i < n
        invariant
            i <= n,
            n == rules@.len(),
            models == rules_view(rules@),
            models.len() == n,
            config_rules(*config) == models,
            !target_pb@.absolute,
            target_pb@.segments.len() > 0,
            alias_search(target_pb@, models) == alias_search(target_pb@, models.skip(i as int)),
        decreases n - i,
    {
        proof {
            assert(models[i as int] == rules@[i as int]@);
            assert(models.skip(i as int).first() == models[i as int]);
            assert(models.skip(i as int).drop_first() =~= models.skip(i + 1));
        }
        let rule = &rules[i];
        if rule_matches_exec(target_pb, &rule.key) {
            match first_rewrite_exec(target_pb, &rule.targets) {
                Some(p) => {
                    return Some(p);
                },
                None => {},
            }
        }
        i = i + 1;
    }
    proof {
        assert(models.skip(n as int) =~= Seq::<AliasRuleModel>::empty());
    }
    None
}

/// The keys of the unusable alias rules: those without a wildcard
/// segment. Such a rule is never matched; its presence deserves a
/// configuration warning.
pub open spec fn invalid_keys_spec(rules: Seq<AliasRuleModel>) -> Seq<PathModel>
    decreases rules.len(),
{
    if rules.len() == 0 {
        Seq::empty()
    } else {
        let rest = invalid_keys_spec(rules.drop_first());
        if before_star_spec(rules.first().key) is None {
            seq![rules.first().key] + rest
        } else {
            rest
        }
    }
}

/// Collects the keys of the alias rules that can never match, so that a
/// caller can warn about them.
pub fn invalid_alias_keys(rules: &Vec<AliasRule>) -> (r: Vec<Path>)
    ensures
        crate::path::paths_view(r@) == invalid_keys_spec(rules_view(rules@)),
{
    let ghost models = rules_view(rules@);
    let mut out: Vec<Path> = Vec::new();
    let n = rules.len();
    proof {
        assert(models.len() == n);
        assert(models.skip(0) =~= models);
        assert(crate::path::paths_view(out@) =~= Seq::<PathModel>::empty());
        assert(invalid_keys_spec(models) == crate::path::paths_view(out@) + invalid_keys_spec(
            models.skip(0),
        ));
    }
    let mut i: usize = 0;
    while i < n
        invariant
            i <= n,
            n == rules@.len(),
            models == rules_view(rules@),
            models.len() == n,
            invalid_keys_spec(models) == crate::path::paths_view(out@) + invalid_keys_spec(
                models.skip(i as int),
            ),
        decreases n - i,
    {
        proof {
            assert(models[i as int] == rules@[i as int]@);
            assert(models.skip(i as int).first() == models[i as int]);
            assert(models.skip(i as int).drop_first() =~= models.skip(i + 1));
        }
        let ghost prev = out@;
        match before_star(&rules[i].key) {
            None => {
                let key = rules[i].key.clone();
                proof {
                    assert(key@ == models[i as int].key);
                }
                out.push(key);
                proof {
                    assert(out@ == prev.push(key));
                    assert(crate::path::paths_view(out@) =~= crate::path::paths_view(prev) + seq![
                        models[i as int].key,
                    ]);
                    assert(crate::path::paths_view(prev) + (seq![models[i as int].key]
                        + invalid_keys_spec(models.skip(i + 1))) =~= crate::path::paths_view(out@)
                        + invalid_keys_spec(models.skip(i + 1)));
                }
            },
            Some(_) => {},
        }
        i = i + 1;
    }
    proof {
        assert(models.skip(n as int) =~= Seq::<AliasRuleModel>::empty());
        assert(invalid_keys_spec(models) =~= crate::path::paths_view(out@));
    }
    out
}

/// The file name probed inside a directory first.
pub open spec fn index_ts() -> Seq<char> {
    "index.ts"@
}

/// The file name probed inside a directory second.
pub open spec fn index_tsx() -> Seq<char> {
    "index.tsx"@
}

/// The extension appended first to a bare specifier.
pub open spec fn ext_tsx() -> Seq<char> {
    "tsx"@
}

/// The extension appended second to a bare specifier.
pub open spec fn ext_ts() -> Seq<char> {
    "ts"@
}

/// The ordered candidate search for an existing file: the path itself,
/// then a directory's `index.ts`, then its `index.tsx`, then the path with
/// its extension replaced by `tsx`, then by `ts`. The first candidate that
/// names a regular file wins; `None` when none does.
pub open spec fn expand_spec(fs: FsModel, p: PathModel) -> Option<PathModel> {
    if fs.files.contains(p) {
        Some(p)
    } else if fs.dirs.contains(p) && fs.files.contains(child_spec(p, index_ts())) {
        Some(child_spec(p, index_ts()))
    } else if fs.dirs.contains(p) && fs.files.contains(child_spec(p, index_tsx())) {
        Some(child_spec(p, index_tsx()))
    } else if fs.files.contains(with_extension_spec(p, ext_tsx())) {
        Some(with_extension_spec(p, ext_tsx()))
    } else if fs.files.contains(with_extension_spec(p, ext_ts())) {
        Some(with_extension_spec(p, ext_ts()))
    } else {
        None
    }
}

/// Runs the candidate search against the recorded filesystem facts.
pub fn expand_path_with_index_or_extension(fs: &FileSystem, pb: &Path) -> (r: Option<Path>)
    ensures
        match r {
            Some(q) => expand_spec(fs@, pb@) == Some(q@) && fs@.files.contains(q@),
            None => expand_spec(fs@, pb@) is None,
        },
{
    if fs.is_file(pb) {
        return Some(pb.clone());
    }
    if fs.is_dir(pb) {
        let maybe = child(pb, &String::from_str("index.ts"));
        if fs.is_file(&maybe) {
            return Some(maybe);
        }
        let maybe = child(pb, &String::from_str("index.tsx"));
        if fs.is_file(&maybe) {
            return Some(maybe);
        }
    }
    let maybe_ext = with_extension(pb, &String::from_str("tsx"));
    if fs.is_file(&maybe_ext) {
        return Some(maybe_ext);
    }
    let maybe_ext2 = with_extension(pb, &String::from_str("ts"));
    if fs.is_file(&maybe_ext2) {
        return Some(maybe_ext2);
    }
    None
}

/// The directory a subject resolves from: the subject's parent when the
/// subject names a file (its last segment carries an extension), else the
/// subject itself, so that resolving from a directory also works.
pub open spec fn base_dir_spec(subject: PathModel) -> PathModel {
    if path_has_extension(subject) {
        parent_spec(subject)
    } else {
        subject
    }
}

/// Computes the directory a subject resolves from.
fn base_dir(subject_file: &Path) -> (r: Path)
    ensures
        r@ == base_dir_spec(subject_file@),
{
    if has_extension(subject_file) {
        parent(subject_file)
    } else {
        subject_file.clone()
    }
}

/// The model of an executable resolution result.
pub open spec fn result_view(r: Result<Path, ResolveError>) -> Result<PathModel, ResolveError> {
    match r {
        Ok(p) => Ok(p@),
        Err(e) => Err(e),
    }
}

/// Resolution of a specifier from a subject file: the specifier is joined
/// onto the subject's directory, the joined path is lexically normalized,
/// probed for existence (the canonicalization step), and expanded to the
/// first existing candidate file. A joined path that ascends above its
/// root names nothing and yields `NotFound`; a faulting probe yields
/// `IOFailure`.
pub open spec fn resolve_spec(fs: FsModel, subject: PathModel, target: PathModel) -> Result<
    PathModel,
    ResolveError,
> {
    let joined = join_spec(base_dir_spec(subject), target);
    match normalize_spec(joined) {
        None => Err(ResolveError::NotFound),
        Some(p) => match canonicalize_spec(fs, p) {
            ProbeOutcome::Denied => Err(ResolveError::IOFailure),
            _ => match expand_spec(fs, p) {
                Some(q) => Ok(q),
                None => Err(ResolveError::NotFound),
            },
        },
    }
}

/// Resolves a specifier relative to a subject file, against the recorded
/// filesystem facts. A returned path always names an existing regular
/// file; it is never a directory.
pub fn resolve(fs: &FileSystem, subject_file: &Path, target_import: &Path) -> (r: Result<
    Path,
    ResolveError,
>)
    ensures
        result_view(r) == resolve_spec(fs@, subject_file@, target_import@),
        r matches Ok(p) ==> fs@.files.contains(p@),
{
    let subject_dir = base_dir(subject_file);
    let joined = join(&subject_dir, target_import);
    let joined_real = match normalize(&joined) {
        Ok(p) => p,
        Err(_) => {
            return Err(ResolveError::NotFound);
        },
    };
    match canonicalize(fs, &joined_real) {
        ProbeOutcome::Denied => Err(ResolveError::IOFailure),
        ProbeOutcome::Exists => {
            // the model's canonical spelling of an existing path is itself
            match expand_path_with_index_or_extension(fs, &joined_real) {
                Some(q) => Ok(q),
                None => Err(ResolveError::NotFound),
            }
        },
        ProbeOutcome::Missing => {
            // nothing exists under the exact spelling: expand the lexically
            // normalized path, so an extension or index variant can still win
            match expand_path_with_index_or_extension(fs, &joined_real) {
                Some(q) => Ok(q),
                None => Err(ResolveError::NotFound),
            }
        },
    }
}

/// Resolution with the alias table applied first: a rewritten specifier —
/// and an absolute one — resolves from the project base directory `cwd`,
/// an unrewritten one from the subject file itself.
pub open spec fn resolve_target_spec(
    fs: FsModel,
    cwd: PathModel,
    subject: PathModel,
    target: PathModel,
    rules: Seq<AliasRuleModel>,
) -> Result<PathModel, ResolveError> {
    match apply_alias_spec(rules, target) {
        Some(a) => resolve_spec(fs, cwd, a),
        None => resolve_spec(fs, subject, target),
    }
}

/// Resolves a specifier with the project's alias table applied first.
pub fn resolve_target(
    fs: &FileSystem,
    cwd: &Path,
    subject_file: &Path,
    target_import: &Path,
    ts_config: &UserTsConfig,
) -> (r: Result<Path, ResolveError>)
    ensures
        result_view(r) == resolve_target_spec(
            fs@,
            cwd@,
            subject_file@,
            target_import@,
            config_rules(*ts_config),
        ),
        r matches Ok(p) ==> fs@.files.contains(p@),
{
    match apply_alias(ts_config, target_import) {
        Some(alias) => resolve(fs, cwd, &alias),
        None => resolve(fs, subject_file, target_import),
    }
}

} // verus!
