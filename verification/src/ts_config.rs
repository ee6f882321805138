use crate::path::{paths_view, Path, PathModel};
use vstd::prelude::*;

verus! {

/// One alias rule of the project configuration: a key pattern holding at
/// most one wildcard segment, and the substitution patterns tried, in
/// order, for a specifier the key matches.
#[derive(Debug)]
pub struct AliasRule {
    pub key: Path,
    pub targets: Vec<Path>,
}

/// Model of one alias rule.
pub struct AliasRuleModel {
    pub key: PathModel,
    pub targets: Seq<PathModel>,
}

impl View for AliasRule {
    type V = AliasRuleModel;

    open spec fn view(&self) -> AliasRuleModel {
        AliasRuleModel { key: self.key@, targets: paths_view(self.targets@) }
    }
}

/// The models of a list of alias rules, in declaration order.
pub open spec fn rules_view(v: Seq<AliasRule>) -> Seq<AliasRuleModel> {
    v.map_values(|r: AliasRule| r@)
}

impl Clone for AliasRule {
    fn clone(&self) -> (r: Self)
        ensures
            r@ == self@,
    {
        let r = AliasRule { key: self.key.clone(), targets: self.targets.clone() };
        proof {
            assert forall|i: int| 0 <= i < self.targets@.len() implies r.targets@[i]@
                == self.targets@[i]@ by {
                assert(cloned::<Path>(self.targets[i], r.targets[i]));
            }
            assert(r@.targets =~= self@.targets);
        }
        r
    }
}

/// The `compilerOptions` part of the project configuration. The alias
/// table is kept in declaration order, so that matching is deterministic.
#[derive(Debug)]
pub struct CompilerOptions {
    pub paths: Option<Vec<AliasRule>>,
}

/// The project configuration, as far as resolution reads it.
#[derive(Debug)]
pub struct UserTsConfig {
    pub compiler_options: Option<CompilerOptions>,
}

/// The alias rules a configuration carries, in declaration order; empty
/// when it carries none.
pub open spec fn config_rules(c: UserTsConfig) -> Seq<AliasRuleModel> {
    match c.compiler_options {
        Some(co) => match co.paths {
            Some(rules) => rules_view(rules@),
            None => Seq::empty(),
        },
        None => Seq::empty(),
    }
}

impl UserTsConfig {
    /// The configured alias rules, in declaration order; empty when none
    /// are configured.
    pub fn paths(&self) -> (r: Vec<AliasRule>)
        ensures
            rules_view(r@) == config_rules(*self),
    {
        match &self.compiler_options {
            Some(co) => match &co.paths {
                Some(rules) => {
                    let r = rules.clone();
                    proof {
                        assert forall|i: int| 0 <= i < rules@.len() implies r@[i]@
                            == rules@[i]@ by {
                            assert(cloned::<AliasRule>(rules@[i], r@[i]));
                        }
                        assert(rules_view(r@) =~= rules_view(rules@));
                    }
                    r
                },
                None => {
                    let r: Vec<AliasRule> = Vec::new();
                    proof {
                        assert(rules_view(r@) =~= Seq::<AliasRuleModel>::empty());
                    }
                    r
                },
            },
            None => {
                let r: Vec<AliasRule> = Vec::new();
                proof {
                    assert(rules_view(r@) =~= Seq::<AliasRuleModel>::empty());
                }
                r
            },
        }
    }
}

} // verus!
