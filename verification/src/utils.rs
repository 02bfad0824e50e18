//! Utilities around the placeholder pass: conditional whole-text
//! replacement, the pass that substitutes every recognized `[tag]` with its
//! fact value, and the argument-presence check of the command line.

use vstd::prelude::*;

use crate::info::SystemInfo;
use crate::resolver::{FactProvider, TemplateError};
use crate::text::{
    chars_to_string, contains_exec, contains_seq, lemma_find_spec_contains, replace_all,
    replace_all_exec, str_eq, str_to_chars,
};

verus! {

/// The placeholder pass consults the fact provider only when the template
/// has a bracket at all.
pub open spec fn needs_facts(t: Seq<char>) -> bool {
    contains_seq(t, "["@) || contains_seq(t, "]"@)
}

/// The template with every recognized `[tag]` replaced by its fact value,
/// one tag after the other in a fixed order.
pub open spec fn apply_facts(t: Seq<char>, si: SystemInfo) -> Seq<char> {
    let t1 = replace_all(t, "[host]"@, si.hostname@);
    let t2 = replace_all(t1, "[username]"@, si.username@);
    let t3 = replace_all(t2, "[kernel]"@, si.kernel@);
    let t4 = replace_all(t3, "[distro]"@, si.distro_name@);
    let t5 = replace_all(t4, "[distro_id]"@, si.distro_id@);
    let t6 = replace_all(t5, "[distro_build_id]"@, si.distro_build_id@);
    let t7 = replace_all(t6, "[shell]"@, si.shell@);
    let t8 = replace_all(t7, "[uptime]"@, si.uptime@);
    let t9 = replace_all(t8, "[total_mem]"@, si.total_mem@);
    let t10 = replace_all(t9, "[cached_mem]"@, si.cached_mem@);
    let t11 = replace_all(t10, "[available_mem]"@, si.available_mem@);
    replace_all(t11, "[used_mem]"@, si.used_mem@)
}

/// What the placeholder pass makes of template `t` once the provider has
/// answered `facts`: the template unchanged when it has no bracket, a fatal
/// error when the facts were missing, otherwise every tag substituted.
pub open spec fn facts_result(t: Seq<char>, facts: Option<SystemInfo>) -> Result<
    Seq<char>,
    TemplateError,
> {
    if !needs_facts(t) {
        Ok(t)
    } else {
        match facts {
            None => Err(TemplateError::MissingFacts),
            Some(si) => Ok(apply_facts(t, si)),
        }
    }
}

/// The placeholder pass turned `t` into `t2` with outcome `r`, given that
/// the fact provider answered `facts`.
pub open spec fn facts_outcome(
    t: Seq<char>,
    t2: Seq<char>,
    r: Result<(), TemplateError>,
    facts: Option<SystemInfo>,
) -> bool {
    match r {
        Ok(_) => facts_result(t, facts) == Ok::<Seq<char>, TemplateError>(t2),
        Err(e) => facts_result(t, facts) == Err::<Seq<char>, TemplateError>(e) && t2 == t,
    }
}

/// `arg` occurs among `args`.
pub open spec fn arg_present(args: Seq<String>, arg: Seq<char>) -> bool {
    exists|i: int| 0 <= i < args.len() && args[i]@ == arg
}

/// Checks if the specified argument has been passed to the process.
pub fn is_arg_present(args: &Vec<String>, arg: &str) -> (b: bool)
    ensures
        b == arg_present(args@, arg@),
{
    let mut j: usize = 0;
    while j < args.len()
        invariant
            0 <= j <= args@.len(),
            forall|k: int| 0 <= k < j ==> args@[k]@ != arg@,
        decreases args@.len() - j,
    {
        if str_eq(args[j].as_str(), arg) {
            assert(args@[j as int]@ == arg@);
            return true;
        }
        j += 1;
    }
    false
}

/// Utilities for resolving a template against the host's facts.
pub struct Utils;

impl Utils {
    /// Replaces `find` with `replace` if found inside of `output`, testing
    /// for presence first so an untouched text allocates nothing.
    pub fn replace_if_found(find: &str, replace: &str, output: &mut String)
        requires
            find@.len() > 0,
        ensures
            final(output)@ == replace_all(old(output)@, find@, replace@),
    {
        let t = str_to_chars(output.as_str());
        let f = str_to_chars(find);
        if !contains_exec(&t, &f) {
            proof {
                lemma_find_spec_contains(t@, f@);
            }
            assert(replace_all(old(output)@, find@, replace@) == old(output)@);
            return ;
        }
        let rep = str_to_chars(replace);
        let r = replace_all_exec(&t, &f, &rep);
        *output = chars_to_string(&r);
    }

    /// The placeholder pass: fetches the fact record once and substitutes
    /// every recognized `[tag]`, or leaves a bracketless template untouched
    /// without consulting the provider at all.
    pub fn fetch<F: FactProvider>(cfg: &mut String, provider: &mut F) -> (r: Result<
        (),
        TemplateError,
    >)
        ensures
            exists|facts: Option<SystemInfo>| facts_outcome(old(cfg)@, final(cfg)@, r, facts),
            !needs_facts(old(cfg)@) ==> r is Ok && final(cfg)@ == old(cfg)@ && *final(provider)
                == *old(provider),
            r is Err ==> r == Err::<(), TemplateError>(TemplateError::MissingFacts) && final(cfg)@
                == old(cfg)@,
    {
        let t = str_to_chars(cfg.as_str());
        let mut lb: Vec<char> = Vec::new();
        lb.push('[');
        let mut rb: Vec<char> = Vec::new();
        rb.push(']');
        proof {
            reveal_strlit("[");
            reveal_strlit("]");
            assert(lb@ =~= "["@);
            assert(rb@ =~= "]"@);
        }
        if !contains_exec(&t, &lb) && !contains_exec(&t, &rb) {
            assert(!needs_facts(old(cfg)@));
            assert(facts_outcome(old(cfg)@, old(cfg)@, Ok(()), None::<SystemInfo>));
            return Ok(());
        }
        assert(needs_facts(old(cfg)@));
        let si = match provider.facts() {
            None => {
                assert(facts_outcome(old(cfg)@, old(cfg)@, Err(TemplateError::MissingFacts),
                None::<SystemInfo>));
                return Err(TemplateError::MissingFacts);
            },
            Some(si) => si,
        };
        proof {
            reveal_strlit("[host]");
            reveal_strlit("[username]");
            reveal_strlit("[kernel]");
            reveal_strlit("[distro]");
            reveal_strlit("[distro_id]");
            reveal_strlit("[distro_build_id]");
            reveal_strlit("[shell]");
            reveal_strlit("[uptime]");
            reveal_strlit("[total_mem]");
            reveal_strlit("[cached_mem]");
            reveal_strlit("[available_mem]");
            reveal_strlit("[used_mem]");
        }
        Self::replace_if_found("[host]", si.hostname.as_str(), cfg);
        Self::replace_if_found("[username]", si.username.as_str(), cfg);
        Self::replace_if_found("[kernel]", si.kernel.as_str(), cfg);
        Self::replace_if_found("[distro]", si.distro_name.as_str(), cfg);
        Self::replace_if_found("[distro_id]", si.distro_id.as_str(), cfg);
        Self::replace_if_found("[distro_build_id]", si.distro_build_id.as_str(), cfg);
        Self::replace_if_found("[shell]", si.shell.as_str(), cfg);
        Self::replace_if_found("[uptime]", si.uptime.as_str(), cfg);
        Self::replace_if_found("[total_mem]", si.total_mem.as_str(), cfg);
        Self::replace_if_found("[cached_mem]", si.cached_mem.as_str(), cfg);
        Self::replace_if_found("[available_mem]", si.available_mem.as_str(), cfg);
        Self::replace_if_found("[used_mem]", si.used_mem.as_str(), cfg);
        assert(cfg@ == apply_facts(old(cfg)@, si));
        assert(facts_outcome(old(cfg)@, cfg@, Ok(()), Some(si)));
        Ok(())
    }
}

} // verus!
