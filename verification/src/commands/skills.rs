//! The skills that the program installs.
use vstd::prelude::*;

use crate::data::append_item;
use crate::text;

verus! {

/// A skill.
#[derive(Debug)]
pub struct Skill {
    pub name: String,
    /// How it is used, line by line.
    pub usage: Vec<String>,
    /// Whether it is installed unless another is chosen.
    pub default: bool,
}

/// What a [`Skill`] holds.
#[verifier::ext_equal]
pub struct SkillModel {
    pub name: Seq<char>,
    pub usage: Seq<Seq<char>>,
    pub default: bool,
}

impl DeepView for Skill {
    type V = SkillModel;

    open spec fn deep_view(&self) -> SkillModel {
        SkillModel {
            name: self.name.deep_view(),
            usage: self.usage.deep_view(),
            default: self.default,
        }
    }
}

/// All skills.
pub open spec fn all_skills() -> Seq<SkillModel> {
    seq![
        SkillModel {
            name: "spec-refine"@,
            usage: seq![
                "  /spec-refine                      Refine specs with behavioral contracts"@,
                "  /spec-refine src/foo.rs            Refine specs for a single file"@,
            ],
            default: true,
        },
        SkillModel {
            name: "spec-checker"@,
            usage: seq![
                "  /spec-checker help                  Show available modes"@,
                "  /spec-checker orient                Build mental model from specs"@,
                "  /spec-checker ask <question>         Answer questions from specs first"@,
                "  /spec-checker plan <feature>         Spec-first feature development"@,
                "  /spec-checker guard                 Guard refactoring against semantic drift"@,
                "  /spec-checker impact <module>        Show blast radius of changes"@,
                "  /spec-checker check                 Run checks and interpret results"@,
                "  /spec-checker bootstrap             One-command setup for new projects"@,
            ],
            default: true,
        },
        SkillModel {
            name: "flow9"@,
            usage: seq![
                "  /flow9                             Flow9 language reference for the agent"@,
            ],
            default: false,
        },
    ]
}

fn spec_refine_skill() -> (r: Skill)
    ensures
        r.deep_view() == all_skills()[0],
{
    let mut usage: Vec<String> = Vec::new();
    append_item(
        &mut usage,
        "  /spec-refine                      Refine specs with behavioral contracts".to_owned(),
    );
    append_item(
        &mut usage,
        "  /spec-refine src/foo.rs            Refine specs for a single file".to_owned(),
    );
    assert(usage.deep_view() =~= all_skills()[0].usage);
    Skill { name: "spec-refine".to_owned(), usage, default: true }
}

fn spec_checker_skill() -> (r: Skill)
    ensures
        r.deep_view() == all_skills()[1],
{
    let mut usage: Vec<String> = Vec::new();
    append_item(
        &mut usage,
        "  /spec-checker help                  Show available modes".to_owned(),
    );
    append_item(
        &mut usage,
        "  /spec-checker orient                Build mental model from specs".to_owned(),
    );
    append_item(
        &mut usage,
        "  /spec-checker ask <question>         Answer questions from specs first".to_owned(),
    );
    append_item(
        &mut usage,
        "  /spec-checker plan <feature>         Spec-first feature development".to_owned(),
    );
    append_item(
        &mut usage,
        "  /spec-checker guard                 Guard refactoring against semantic drift".to_owned(),
    );
    append_item(
        &mut usage,
        "  /spec-checker impact <module>        Show blast radius of changes".to_owned(),
    );
    append_item(
        &mut usage,
        "  /spec-checker check                 Run checks and interpret results".to_owned(),
    );
    append_item(
        &mut usage,
        "  /spec-checker bootstrap             One-command setup for new projects".to_owned(),
    );
    assert(usage.deep_view() =~= all_skills()[1].usage);
    Skill { name: "spec-checker".to_owned(), usage, default: true }
}

fn flow9_skill() -> (r: Skill)
    ensures
        r.deep_view() == all_skills()[2],
{
    let mut usage: Vec<String> = Vec::new();
    append_item(
        &mut usage,
        "  /flow9                             Flow9 language reference for the agent".to_owned(),
    );
    assert(usage.deep_view() =~= all_skills()[2].usage);
    Skill { name: "flow9".to_owned(), usage, default: false }
}

/// Lists all skills.
pub fn list_skills() -> (r: Vec<Skill>)
    ensures
        r.deep_view() == all_skills(),
{
    let mut skills: Vec<Skill> = Vec::new();
    append_item(&mut skills, spec_refine_skill());
    append_item(&mut skills, spec_checker_skill());
    append_item(&mut skills, flow9_skill());
    assert(skills.deep_view() =~= all_skills());
    skills
}

/// Whether a skill is installed: by its name, or with all, or without a choice if it is one of
/// those that are installed then.
pub open spec fn is_chosen(skill: SkillModel, choice: Option<Seq<char>>) -> bool {
    match choice {
        None => skill.default,
        Some(c) => c == "all"@ || c == skill.name,
    }
}

/// Decides whether a skill is installed.
pub fn chosen(skill: &Skill, choice: Option<&str>) -> (b: bool)
    ensures
        b == is_chosen(
            skill.deep_view(),
            match choice {
                Some(c) => Some(c@),
                None => None,
            },
        ),
{
    match choice {
        None => skill.default,
        Some(c) => text::same(c, "all") || text::same(c, skill.name.as_str()),
    }
}

/// What is said where a choice names no skill.
pub open spec fn no_skill_text(choice: Seq<char>) -> Seq<char> {
    "No matching skill '"@ + choice + "'. Available: "@ + text::join(
        all_skills().map_values(|s: SkillModel| s.name),
        ", "@,
    ) + ", all"@
}

/// Says that a choice names no skill.
pub fn no_matching_skill(choice: &str) -> (r: String)
    ensures
        r@ == no_skill_text(choice@),
{
    let mut names: Vec<String> = Vec::new();
    append_item(&mut names, "spec-refine".to_owned());
    append_item(&mut names, "spec-checker".to_owned());
    append_item(&mut names, "flow9".to_owned());
    assert(names.deep_view() =~= all_skills().map_values(|s: SkillModel| s.name));
    let mut s = "No matching skill '".to_owned();
    s.append(choice);
    s.append("'. Available: ");
    s.append(text::join_strings(names.as_slice(), ", ").as_str());
    s.append(", all");
    s
}

// ─── Laws ─────────────────────────────────────────────────────────────────────

/// Every skill is installed with all.
pub proof fn all_means_every_skill(skill: SkillModel)
    ensures
        is_chosen(skill, Some("all"@)),
{
}

} // verus!
