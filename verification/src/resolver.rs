//! The template resolver: the error taxonomy, the two collaborator
//! interfaces the engine consumes, and the orchestrator that runs the three
//! passes in their fixed order.

use vstd::prelude::*;

use crate::info::SystemInfo;

verus! {

broadcast use vstd::string::group_string_axioms;

/// Why a resolution call aborted. Grammar violations come from the template
/// text itself; the rest are collaborator or consistency failures.
#[derive(Clone, Copy, PartialEq, Eq, Debug)]
pub enum TemplateError {
    /// The reserved sentinel occurs literally in the template.
    SentinelCollision,
    /// A command directive has nothing after its marker.
    EmptyCommand,
    /// The command executor reported failure.
    ExecutorFailure,
    /// The batched execution returned the wrong number of output segments.
    SegmentMismatch,
    /// The fact provider could not supply the fact record.
    MissingFacts,
    /// A colour channel is outside 0 to 255.
    ColorOutOfRange,
    /// Colour markup that starts but does not fit the grammar.
    MalformedColor,
}

impl TemplateError {
    /// A descriptive message for the error.
    pub fn message(&self) -> (m: String)
        ensures
            m@ == match *self {
                TemplateError::SentinelCollision => "the reserved sentinel occurs in the template"@,
                TemplateError::EmptyCommand => "a command directive is empty"@,
                TemplateError::ExecutorFailure => "the command executor failed"@,
                TemplateError::SegmentMismatch => "the batched command output could not be split back"@,
                TemplateError::MissingFacts => "fetching system information failed"@,
                TemplateError::ColorOutOfRange => "a colour channel is outside 0-255"@,
                TemplateError::MalformedColor => "colour markup does not fit the grammar"@,
            },
    {
        match *self {
            TemplateError::SentinelCollision => "the reserved sentinel occurs in the template".to_owned(),
            TemplateError::EmptyCommand => "a command directive is empty".to_owned(),
            TemplateError::ExecutorFailure => "the command executor failed".to_owned(),
            TemplateError::SegmentMismatch => "the batched command output could not be split back".to_owned(),
            TemplateError::MissingFacts => "fetching system information failed".to_owned(),
            TemplateError::ColorOutOfRange => "a colour channel is outside 0-255".to_owned(),
            TemplateError::MalformedColor => "colour markup does not fit the grammar".to_owned(),
        }
    }
}

/// A source of host facts. One call returns the whole record, or nothing
/// when any required fact cannot be obtained.
pub trait FactProvider {
    fn facts(&mut self) -> Option<SystemInfo>;
}

/// A synchronous shell-command runner: returns captured standard output with
/// one trailing newline stripped, or nothing on failure.
pub trait CommandExecutor {
    fn execute(&mut self, command: &str) -> Option<String>;
}

/// A template none of the three passes has any business with: no directive
/// marker, no bracket, no colour markup opening.
pub open spec fn plain_template(t: Seq<char>) -> bool {
    !crate::commands::needs_cmd(t) && !crate::utils::needs_facts(t) && !crate::text::contains_seq(
        t,
        "rgb[\""@,
    )
}

/// What one resolution call makes of template `t`, once the executor has
/// answered `reply` to the batched command invocation and the fact provider
/// has answered `facts`: the command pass, then the placeholder pass, then
/// the colour pass, the first error aborting the whole call.
pub open spec fn pipeline(
    t: Seq<char>,
    reply: Option<Seq<char>>,
    facts: Option<SystemInfo>,
) -> Result<Seq<char>, TemplateError> {
    match crate::commands::cmd_result(t, reply) {
        Err(e) => Err(e),
        Ok(t1) => match crate::utils::facts_result(t1, facts) {
            Err(e) => Err(e),
            Ok(t2) => crate::parser::color_pass_spec(t2),
        },
    }
}

/// One resolution call on template `t` had outcome `r`, given the two
/// collaborator answers.
pub open spec fn resolve_outcome(
    t: Seq<char>,
    r: Result<String, TemplateError>,
    reply: Option<Seq<char>>,
    facts: Option<SystemInfo>,
) -> bool {
    match r {
        Ok(s) => pipeline(t, reply, facts) == Ok::<Seq<char>, TemplateError>(s@),
        Err(e) => pipeline(t, reply, facts) == Err::<Seq<char>, TemplateError>(e),
    }
}

/// Resolves a template against the host: runs command substitution, then
/// placeholder substitution, then colour markup rendering, in that fixed
/// order, and returns the final display text. A template that none of the
/// passes touches comes back byte-identical, with neither collaborator
/// consulted; a sentinel collision aborts before anything is executed.
pub fn resolve<E: CommandExecutor, F: FactProvider>(
    template: &str,
    executor: &mut E,
    provider: &mut F,
) -> (r: Result<String, TemplateError>)
    ensures
        exists|reply: Option<Seq<char>>, facts: Option<SystemInfo>|
            resolve_outcome(template@, r, reply, facts),
        plain_template(template@) ==> (r matches Ok(s) && s@ == template@),
        !crate::commands::needs_cmd(template@) ==> *final(executor) == *old(executor),
        !crate::commands::needs_cmd(template@) && !crate::utils::needs_facts(template@)
            ==> *final(provider) == *old(provider),
        crate::commands::needs_cmd(template@) && crate::commands::sentinel_collision(template@)
            ==> r == Err::<String, TemplateError>(TemplateError::SentinelCollision)
            && *final(executor) == *old(executor) && *final(provider) == *old(provider),
{
    let mut cfg: String = template.to_owned();
    let r1 = crate::commands::substitute_commands(&mut cfg, executor);
    let ghost reply = choose|rep: Option<Seq<char>>|
        crate::commands::cmd_outcome(template@, cfg@, r1, rep);
    match r1 {
        Err(e) => {
            assert(pipeline(template@, reply, None::<SystemInfo>) == Err::<
                Seq<char>,
                TemplateError,
            >(e));
            assert(resolve_outcome(template@, Err::<String, TemplateError>(e), reply,
            None::<SystemInfo>));
            return Err(e);
        },
        Ok(_) => {},
    }
    assert(crate::commands::cmd_result(template@, reply) == Ok::<Seq<char>, TemplateError>(cfg@));
    let ghost mid = cfg@;
    let r2 = crate::utils::Utils::fetch(&mut cfg, provider);
    let ghost facts = choose|f: Option<SystemInfo>| crate::utils::facts_outcome(mid, cfg@, r2, f);
    match r2 {
        Err(e) => {
            assert(pipeline(template@, reply, facts) == Err::<Seq<char>, TemplateError>(e));
            assert(resolve_outcome(template@, Err::<String, TemplateError>(e), reply, facts));
            return Err(e);
        },
        Ok(_) => {},
    }
    assert(crate::utils::facts_result(mid, facts) == Ok::<Seq<char>, TemplateError>(cfg@));
    let ghost mid2 = cfg@;
    let r3 = crate::parser::Parser::parse_color(&mut cfg);
    proof {
        if plain_template(template@) {
            reveal_strlit("rgb[\"");
            crate::text::lemma_find_spec_contains(mid2, "rgb[\""@);
            assert(mid2 == template@);
            assert(mid2.subrange(0, mid2.len() as int) =~= mid2);
        }
    }
    match r3 {
        Err(e) => {
            assert(pipeline(template@, reply, facts) == Err::<Seq<char>, TemplateError>(e));
            assert(resolve_outcome(template@, Err::<String, TemplateError>(e), reply, facts));
            return Err(e);
        },
        Ok(_) => {
            assert(pipeline(template@, reply, facts) == Ok::<Seq<char>, TemplateError>(cfg@));
            let res: Result<String, TemplateError> = Ok(cfg);
            assert(resolve_outcome(template@, res, reply, facts));
            res
        },
    }
}

} // verus!
