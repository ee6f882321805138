//! The laws the resolver obeys, each proved from the definitions the
//! executable functions are verified against.

use crate::fs_model::FsModel;
use crate::path::{child_spec, join_spec, normalize_spec, with_extension_spec, PathModel};
use crate::resolve::{
    apply_alias_spec, base_dir_spec, expand_spec, ext_ts, ext_tsx, index_ts, index_tsx,
    resolve_spec, resolve_target_spec, ResolveError,
};
use crate::ts_config::AliasRuleModel;
use vstd::prelude::*;

verus! {

/// A relative specifier whose target exists exactly as named — the joined,
/// normalized path names a regular file, and probing it does not fault —
/// resolves to that very path, unchanged.
pub proof fn lemma_exact_target_resolves(
    fs: FsModel,
    subject: PathModel,
    target: PathModel,
    p: PathModel,
)
    requires
        !target.absolute,
        normalize_spec(join_spec(base_dir_spec(subject), target)) == Some(p),
        fs.files.contains(p),
        !fs.denied.contains(p),
    ensures
        resolve_spec(fs, subject, target) == Ok::<PathModel, ResolveError>(p),
{
}

/// When a directory offers both of its index files — and the path itself
/// names no file — the `index.ts` candidate is preferred over `index.tsx`.
pub proof fn lemma_index_ts_preferred(fs: FsModel, p: PathModel)
    requires
        !fs.files.contains(p),
        fs.dirs.contains(p),
        fs.files.contains(child_spec(p, index_ts())),
        fs.files.contains(child_spec(p, index_tsx())),
    ensures
        expand_spec(fs, p) == Some(child_spec(p, index_ts())),
{
}

/// When a bare path matches both appended extensions — and neither the
/// path itself nor a directory index won earlier — the `tsx` candidate is
/// preferred over `ts`.
pub proof fn lemma_tsx_preferred(fs: FsModel, p: PathModel)
    requires
        !fs.files.contains(p),
        !(fs.dirs.contains(p) && fs.files.contains(child_spec(p, index_ts()))),
        !(fs.dirs.contains(p) && fs.files.contains(child_spec(p, index_tsx()))),
        fs.files.contains(with_extension_spec(p, ext_tsx())),
        fs.files.contains(with_extension_spec(p, ext_ts())),
    ensures
        expand_spec(fs, p) == Some(with_extension_spec(p, ext_tsx())),
{
}

/// A specifier with no existing candidate under any expansion — and whose
/// probe does not fault — resolves to the `NotFound` error value: an
/// ordinary result, never a crash. A joined path that ascends above its
/// root resolves to `NotFound` as well.
pub proof fn lemma_no_candidate_is_not_found(fs: FsModel, subject: PathModel, target: PathModel)
    requires
        normalize_spec(join_spec(base_dir_spec(subject), target)) matches Some(p) ==> {
            &&& !fs.denied.contains(p)
            &&& !fs.files.contains(p)
            &&& !fs.files.contains(child_spec(p, index_ts()))
            &&& !fs.files.contains(child_spec(p, index_tsx()))
            &&& !fs.files.contains(with_extension_spec(p, ext_tsx()))
            &&& !fs.files.contains(with_extension_spec(p, ext_ts()))
        },
    ensures
        resolve_spec(fs, subject, target) == Err::<PathModel, ResolveError>(
            ResolveError::NotFound,
        ),
{
}

/// An absolute specifier bypasses alias rewriting entirely, whatever the
/// alias table holds: it comes back unchanged from alias application, and
/// its resolution depends neither on the table nor on the directory it is
/// resolved from.
pub proof fn lemma_absolute_bypasses_aliases(
    fs: FsModel,
    cwd: PathModel,
    subject: PathModel,
    target: PathModel,
    rules: Seq<AliasRuleModel>,
)
    requires
        target.absolute,
    ensures
        apply_alias_spec(rules, target) == Some(target),
        resolve_target_spec(fs, cwd, subject, target, rules) == resolve_spec(fs, cwd, target),
        resolve_target_spec(fs, cwd, subject, target, rules) == resolve_spec(fs, subject, target),
{
    assert(join_spec(base_dir_spec(cwd), target) == target);
    assert(join_spec(base_dir_spec(subject), target) == target);
}

} // verus!
