//! Skills loader for agent capabilities.
//!
//! Skills are markdown files (`SKILL.md`) that teach the agent how to perform
//! specific tasks. Each skill lives in its own directory and can have YAML
//! frontmatter with metadata. Skills can declare an `intent-category` so they
//! are loaded automatically for messages routed to that category.
//!
//! The directories themselves are read by the caller: a [`SkillListing`] holds
//! what was found in the workspace and builtin skill directories, and every
//! operation here is a function of the loader and such a listing.
use std::path::{Path, PathBuf};
use vstd::prelude::*;

use crate::frontmatter::{
    extract_description, extract_field_spec, extract_intent_category, extract_user_invocable,
    intent_category_spec, opt_view, strip_frontmatter, strip_frontmatter_spec, to_lowercase,
    user_invocable_spec,
};
use crate::intent::{category_label, IntentCategory};
use crate::text::{join, join_strings, lemma_join_len, str_eq, views};

verus! {

#[verifier::external_type_specification]
#[verifier::external_body]
pub struct ExPathBuf(PathBuf);

#[verifier::external_type_specification]
#[verifier::external_body]
pub struct ExPath(Path);

/// What `Path::join` returns for a base path and a segment, under the path
/// syntax of the platform the crate is built for.
pub uninterp spec fn path_join(base: &Path, segment: Seq<char>) -> PathBuf;

/// Calls `Path::join`. Claimed: the result is a function of the base path and
/// the segment alone (named `path_join`); how the platform joins paths is not
/// stated.
#[verifier::external_body]
fn join_path(base: &Path, segment: &str) -> (r: PathBuf)
    ensures
        r == path_join(base, segment@),
{
    base.join(segment)
}

/// `<PathBuf as Clone>::clone`. Claimed: the copy equals the path it was made from.
pub assume_specification[ <PathBuf as Clone>::clone ](p: &PathBuf) -> (r: PathBuf)
    ensures
        r == *p,
;

/// Loaded skill info.
#[derive(Debug, Clone)]
pub struct SkillInfo {
    pub name: String,
    pub description: String,
    pub path: PathBuf,
    pub source: String,
    /// Optional: the intent category this skill is associated with. When set,
    /// the skill is auto-loaded whenever the router classifies a message into
    /// this category.
    pub intent_category: Option<IntentCategory>,
    /// Whether the skill can be invoked directly by users (e.g. via a
    /// `/skill-name` slash command). Defaults to `false`.
    pub user_invocable: bool,
}

/// What a [`SkillInfo`] holds, with its strings as character sequences.
pub struct SkillInfoView {
    pub name: Seq<char>,
    pub description: Seq<char>,
    pub path: PathBuf,
    pub source: Seq<char>,
    pub intent_category: Option<IntentCategory>,
    pub user_invocable: bool,
}

impl View for SkillInfo {
    type V = SkillInfoView;

    open spec fn view(&self) -> SkillInfoView {
        SkillInfoView {
            name: self.name@,
            description: self.description@,
            path: self.path,
            source: self.source@,
            intent_category: self.intent_category,
            user_invocable: self.user_invocable,
        }
    }
}

/// One entry of a skills directory, as read from disk.
pub struct SkillDirEntry {
    /// The entry's file name.
    pub name: String,
    /// Whether the entry is a directory.
    pub is_dir: bool,
    /// The path of `SKILL.md` inside the entry.
    pub skill_file: PathBuf,
    /// Whether that file exists.
    pub skill_file_exists: bool,
    /// The file's text, where it could be read.
    pub content: Option<String>,
}

/// What the two skills directories held when they were read.
pub struct SkillListing {
    /// Entries of the workspace skills directory, in the order they were read.
    pub workspace: Vec<SkillDirEntry>,
    /// Entries of the builtin skills directory, in the order they were read.
    pub builtin: Vec<SkillDirEntry>,
}

pub struct SkillsLoader {
    workspace_skills: PathBuf,
    builtin_skills: Option<PathBuf>,
}

pub open spec fn infos_view(v: Seq<SkillInfo>) -> Seq<SkillInfoView> {
    v.map_values(|s: SkillInfo| s@)
}

/// An entry is a skill when it is a directory holding a `SKILL.md`.
pub open spec fn is_skill_entry(e: SkillDirEntry) -> bool {
    e.is_dir && e.skill_file_exists
}

/// The description of a skill: its frontmatter `description`, else `Skill: <name>`.
pub open spec fn description_of(name: Seq<char>, content: Option<Seq<char>>) -> Seq<char> {
    match content {
        Some(c) => match extract_field_spec(c, "description"@) {
            Some(d) => d,
            None => "Skill: "@ + name,
        },
        None => "Skill: "@ + name,
    }
}

/// The skill that a directory entry describes, found under `source`.
pub open spec fn skill_of(e: SkillDirEntry, source: Seq<char>) -> SkillInfoView {
    let content = opt_view(e.content);
    SkillInfoView {
        name: e.name@,
        description: description_of(e.name@, content),
        path: e.skill_file,
        source: source,
        intent_category: match content {
            Some(c) => intent_category_spec(c),
            None => None,
        },
        user_invocable: match content {
            Some(c) => user_invocable_spec(c) == Some(true),
            None => false,
        },
    }
}

/// The skills found among the entries of one directory, in order.
pub open spec fn scanned(entries: Seq<SkillDirEntry>, source: Seq<char>) -> Seq<SkillInfoView>
    decreases entries.len(),
{
    if entries.len() == 0 {
        Seq::empty()
    } else {
        let prev = scanned(entries.drop_last(), source);
        if is_skill_entry(entries.last()) {
            prev.push(skill_of(entries.last(), source))
        } else {
            prev
        }
    }
}

/// All skills: the workspace ones first, then (when the loader has a builtin
/// directory) the builtin ones.
pub open spec fn listed(has_builtin: bool, listing: SkillListing) -> Seq<SkillInfoView> {
    scanned(listing.workspace@, "workspace"@) + if has_builtin {
        scanned(listing.builtin@, "builtin"@)
    } else {
        Seq::empty()
    }
}

/// Names of the skills tagged with `category`, in order.
pub open spec fn names_for(skills: Seq<SkillInfoView>, category: IntentCategory) -> Seq<Seq<char>>
    decreases skills.len(),
{
    if skills.len() == 0 {
        Seq::empty()
    } else {
        let prev = names_for(skills.drop_last(), category);
        if skills.last().intent_category == Some(category) {
            prev.push(skills.last().name)
        } else {
            prev
        }
    }
}

/// Index of the first skill entry at or after `k` named `name`.
pub open spec fn first_named_from(entries: Seq<SkillDirEntry>, name: Seq<char>, k: int) -> Option<
    int,
>
    decreases entries.len() - k,
{
    if k < 0 || k >= entries.len() {
        None
    } else if is_skill_entry(entries[k]) && entries[k].name@ == name {
        Some(k)
    } else {
        first_named_from(entries, name, k + 1)
    }
}

/// The body of an entry's skill file, if it could be read.
pub open spec fn body_of(e: SkillDirEntry) -> Option<Seq<char>> {
    match opt_view(e.content) {
        Some(c) => Some(strip_frontmatter_spec(c)),
        None => None,
    }
}

/// The body of the first skill named `name`, looking in the workspace directory
/// first and then, when there is one, in the builtin directory.
pub open spec fn loaded(has_builtin: bool, listing: SkillListing, name: Seq<char>) -> Option<
    Seq<char>,
> {
    match first_named_from(listing.workspace@, name, 0) {
        Some(k) => body_of(listing.workspace@[k]),
        None => if has_builtin {
            match first_named_from(listing.builtin@, name, 0) {
                Some(k) => body_of(listing.builtin@[k]),
                None => None,
            }
        } else {
            None
        },
    }
}

/// The context sections for the requested skills that could be loaded.
pub open spec fn context_parts(has_builtin: bool, listing: SkillListing, names: Seq<Seq<char>>) -> Seq<
    Seq<char>,
>
    decreases names.len(),
{
    if names.len() == 0 {
        Seq::empty()
    } else {
        let prev = context_parts(has_builtin, listing, names.drop_last());
        match loaded(has_builtin, listing, names.last()) {
            Some(body) => prev.push("### Skill: "@ + names.last() + "\n"@ + body),
            None => prev,
        }
    }
}

/// The skills section of the agent's context.
pub open spec fn context_text(has_builtin: bool, listing: SkillListing, names: Seq<Seq<char>>) -> Seq<
    char,
> {
    let parts = context_parts(has_builtin, listing, names);
    if parts.len() == 0 {
        Seq::empty()
    } else {
        "## Skills\n\n"@ + join(parts, "\n\n"@)
    }
}

/// The summary line of one skill.
pub open spec fn summary_line(s: SkillInfoView) -> Seq<char> {
    "  <skill name=\""@ + s.name + "\" source=\""@ + s.source + "\""@ + match s.intent_category {
        Some(c) => " intent=\""@ + category_label(c) + "\""@,
        None => Seq::empty(),
    } + ">"@ + s.description + "</skill>"@
}

/// The summary of all skills: nothing when there are none.
pub open spec fn summary_text(skills: Seq<SkillInfoView>) -> Seq<char> {
    if skills.len() == 0 {
        Seq::empty()
    } else {
        join(
            seq!["<skills>"@] + skills.map_values(|s: SkillInfoView| summary_line(s)) + seq![
                "</skills>"@,
            ],
            "\n"@,
        )
    }
}

/// The skill info that one directory entry yields.
fn skill_from_entry(e: &SkillDirEntry, source: &str) -> (r: SkillInfo)
    ensures
        r@ == skill_of(*e, source@),
{
    let description = match &e.content {
        Some(c) => match extract_description(c.as_str()) {
            Some(d) => d,
            None => {
                let mut d = "Skill: ".to_owned();
                d.append(e.name.as_str());
                d
            },
        },
        None => {
            let mut d = "Skill: ".to_owned();
            d.append(e.name.as_str());
            d
        },
    };
    let intent_category = match &e.content {
        Some(c) => extract_intent_category(c.as_str()),
        None => None,
    };
    let user_invocable = match &e.content {
        Some(c) => match extract_user_invocable(c.as_str()) {
            Some(b) => b,
            None => false,
        },
        None => false,
    };
    SkillInfo {
        name: e.name.clone(),
        description,
        path: e.skill_file.clone(),
        source: source.to_owned(),
        intent_category,
        user_invocable,
    }
}

impl SkillsLoader {
    /// The workspace skills directory.
    pub closed spec fn workspace_dir(&self) -> PathBuf {
        self.workspace_skills
    }

    /// The builtin skills directory, if there is one.
    pub closed spec fn builtin_dir(&self) -> Option<PathBuf> {
        self.builtin_skills
    }

    /// A loader for the `skills` directory of `workspace` and, optionally, a
    /// directory of builtin skills.
    pub fn new(workspace: &Path, builtin_skills: Option<PathBuf>) -> (r: Self)
        ensures
            r.workspace_dir() == path_join(workspace, "skills"@),
            r.builtin_dir() == builtin_skills,
    {
        SkillsLoader { workspace_skills: join_path(workspace, "skills"), builtin_skills }
    }

    /// The directory that workspace skills are read from.
    pub fn workspace_skills_dir(&self) -> (r: &PathBuf)
        ensures
            *r == self.workspace_dir(),
    {
        &self.workspace_skills
    }

    /// The directory that builtin skills are read from, if there is one.
    pub fn builtin_skills_dir(&self) -> (r: Option<&PathBuf>)
        ensures
            match r {
                Some(p) => self.builtin_dir() == Some(*p),
                None => self.builtin_dir() is None,
            },
    {
        match &self.builtin_skills {
            Some(p) => Some(p),
            None => None,
        }
    }

    /// Scan the entries of one skills directory: every subdirectory holding a
    /// `SKILL.md` becomes a skill, appended to `out` in order.
    fn scan_dir(&self, entries: &Vec<SkillDirEntry>, source: &str, out: &mut Vec<SkillInfo>)
        ensures
            infos_view(final(out)@) == infos_view(old(out)@) + scanned(entries@, source@),
    {
        let ghost start = infos_view(out@);
        let mut i: usize = 0;
        assert(entries@.take(0) =~= Seq::<SkillDirEntry>::empty());
        assert(start + scanned(Seq::<SkillDirEntry>::empty(), source@) =~= start);
        while i < entries.len()
            invariant
                i <= entries.len(),
                infos_view(out@) == start + scanned(entries@.take(i as int), source@),
            decreases entries.len() - i,
        {
            let ghost before = out@;
            assert(entries@.take(i + 1).drop_last() =~= entries@.take(i as int));
            let e = &entries[i];
            if e.is_dir && e.skill_file_exists {
                let info = skill_from_entry(e, source);
                out.push(info);
                assert(infos_view(out@) =~= infos_view(before).push(info@));
            }
            i = i + 1;
        }
        assert(entries@.take(entries.len() as int) =~= entries@);
    }

    /// List all available skills from both workspace and builtin directories.
    pub fn list_skills(&self, listing: &SkillListing) -> (r: Vec<SkillInfo>)
        ensures
            infos_view(r@) == listed(self.builtin_dir() is Some, *listing),
    {
        let mut skills: Vec<SkillInfo> = Vec::new();
        assert(infos_view(skills@) =~= Seq::<SkillInfoView>::empty());
        // Workspace skills (custom, user-defined)
        self.scan_dir(&listing.workspace, "workspace", &mut skills);
        // Builtin skills (bundled with the binary)
        if self.builtin_skills.is_some() {
            self.scan_dir(&listing.builtin, "builtin", &mut skills);
        }
        assert(infos_view(skills@) =~= listed(self.builtin_dir() is Some, *listing));
        skills
    }

    /// Return skill names that match the given intent category.
    ///
    /// This enables automatic skill activation: when a message is classified,
    /// the agent loads all skills tagged with the matching category.
    pub fn skills_for_intent(&self, listing: &SkillListing, category: IntentCategory) -> (r: Vec<
        String,
    >)
        ensures
            views(r@) == names_for(listed(self.builtin_dir() is Some, *listing), category),
    {
        let skills = self.list_skills(listing);
        let ghost all = infos_view(skills@);
        let mut names: Vec<String> = Vec::new();
        let mut i: usize = 0;
        assert(all.take(0) =~= Seq::<SkillInfoView>::empty());
        assert(views(names@) =~= Seq::<Seq<char>>::empty());
        while i < skills.len()
            invariant
                i <= skills.len(),
                all == infos_view(skills@),
                views(names@) == names_for(all.take(i as int), category),
            decreases skills.len() - i,
        {
            let ghost before = names@;
            assert(all.take(i + 1).drop_last() =~= all.take(i as int));
            assert(all[i as int] == skills@[i as int]@);
            let matches = match skills[i].intent_category {
                Some(c) => c == category,
                None => false,
            };
            if matches {
                names.push(skills[i].name.clone());
                assert(views(names@) =~= views(before).push(skills@[i as int].name@));
            }
            i = i + 1;
        }
        assert(all.take(skills.len() as int) =~= all);
        names
    }

    /// The first skill entry named `name` in one directory, with its index.
    fn find_entry(entries: &Vec<SkillDirEntry>, name: &str) -> (r: Option<usize>)
        ensures
            match r {
                Some(k) => k < entries.len() && first_named_from(entries@, name@, 0) == Some(
                    k as int,
                ),
                None => first_named_from(entries@, name@, 0) is None,
            },
    {
        let mut i: usize = 0;
        while i < entries.len()
            invariant
                i <= entries.len(),
                first_named_from(entries@, name@, 0) == first_named_from(entries@, name@, i as int),
            decreases entries.len() - i,
        {
            let e = &entries[i];
            if e.is_dir && e.skill_file_exists && str_eq(e.name.as_str(), name) {
                return Some(i);
            }
            i = i + 1;
        }
        None
    }

    /// The body of an entry's skill file, without its frontmatter.
    fn body_of_entry(e: &SkillDirEntry) -> (r: Option<String>)
        ensures
            opt_view(r) == body_of(*e),
    {
        match &e.content {
            Some(c) => Some(strip_frontmatter(c.as_str())),
            None => None,
        }
    }

    /// Load a skill by name: the body of its `SKILL.md`, without frontmatter.
    pub fn load_skill(&self, listing: &SkillListing, name: &str) -> (r: Option<String>)
        ensures
            opt_view(r) == loaded(self.builtin_dir() is Some, *listing, name@),
    {
        match Self::find_entry(&listing.workspace, name) {
            Some(k) => Self::body_of_entry(&listing.workspace[k]),
            None => {
                if self.builtin_skills.is_some() {
                    match Self::find_entry(&listing.builtin, name) {
                        Some(k) => Self::body_of_entry(&listing.builtin[k]),
                        None => None,
                    }
                } else {
                    None
                }
            },
        }
    }

    /// Load multiple skills for inclusion in agent context.
    pub fn load_skills_for_context(&self, listing: &SkillListing, skill_names: &[String]) -> (r:
        String)
        ensures
            r@ == context_text(self.builtin_dir() is Some, *listing, views(skill_names@)),
    {
        let ghost hb = self.builtin_dir() is Some;
        let mut parts: Vec<String> = Vec::new();
        let mut i: usize = 0;
        assert(views(skill_names@).take(0) =~= Seq::<Seq<char>>::empty());
        assert(views(parts@) =~= Seq::<Seq<char>>::empty());
        while i < skill_names.len()
            invariant
                i <= skill_names.len(),
                hb == (self.builtin_dir() is Some),
                views(parts@) == context_parts(hb, *listing, views(skill_names@).take(i as int)),
            decreases skill_names.len() - i,
        {
            let ghost before = parts@;
            let ghost ns = views(skill_names@);
            assert(ns.take(i + 1).drop_last() =~= ns.take(i as int));
            assert(ns.take(i + 1).last() == skill_names@[i as int]@);
            let name = &skill_names[i];
            match self.load_skill(listing, name.as_str()) {
                Some(content) => {
                    let mut part = "### Skill: ".to_owned();
                    part.append(name.as_str());
                    part.append("\n");
                    part.append(content.as_str());
                    parts.push(part);
                    assert(views(parts@) =~= views(before).push(part@));
                },
                None => {},
            }
            i = i + 1;
        }
        assert(views(skill_names@).take(skill_names.len() as int) =~= views(skill_names@));
        if parts.len() == 0 {
            String::new()
        } else {
            let mut out = "## Skills\n\n".to_owned();
            let body = join_strings(&parts, "\n\n");
            out.append(body.as_str());
            out
        }
    }

    /// Build a summary of all available skills (name + description).
    pub fn build_summary(&self, listing: &SkillListing) -> (r: String)
        ensures
            r@ == summary_text(listed(self.builtin_dir() is Some, *listing)),
    {
        let skills = self.list_skills(listing);
        let ghost all = infos_view(skills@);
        if skills.len() == 0 {
            return String::new();
        }
        let mut lines: Vec<String> = Vec::new();
        lines.push("<skills>".to_owned());
        let mut i: usize = 0;
        assert(all.take(0).map_values(|s: SkillInfoView| summary_line(s)) =~= Seq::<
            Seq<char>,
        >::empty());
        assert(views(lines@) =~= seq!["<skills>"@]);
        while i < skills.len()
            invariant
                i <= skills.len(),
                all == infos_view(skills@),
                views(lines@) == seq!["<skills>"@] + all.take(i as int).map_values(
                    |s: SkillInfoView| summary_line(s),
                ),
            decreases skills.len() - i,
        {
            let ghost before = lines@;
            let skill = &skills[i];
            assert(all[i as int] == skill@);
            let mut line = "  <skill name=\"".to_owned();
            line.append(skill.name.as_str());
            line.append("\" source=\"");
            line.append(skill.source.as_str());
            line.append("\"");
            match skill.intent_category {
                Some(c) => {
                    line.append(" intent=\"");
                    line.append(c.as_str());
                    line.append("\"");
                },
                None => {},
            }
            line.append(">");
            line.append(skill.description.as_str());
            line.append("</skill>");
            assert(line@ =~= summary_line(skill@));
            lines.push(line);
            assert(all.take(i + 1).map_values(|s: SkillInfoView| summary_line(s)) =~= all.take(
                i as int,
            ).map_values(|s: SkillInfoView| summary_line(s)).push(summary_line(all[i as int])));
            assert(views(lines@) =~= views(before).push(line@));
            i = i + 1;
        }
        assert(all.take(skills.len() as int) =~= all);
        lines.push("</skills>".to_owned());
        assert(views(lines@) =~= seq!["<skills>"@] + all.map_values(
            |s: SkillInfoView| summary_line(s),
        ) + seq!["</skills>"@]);
        join_strings(&lines, "\n")
    }
}

/// The skills selected for a category are exactly the listed skills tagged with it:
/// a name is selected if and only if some listed skill of that name carries the
/// category.
pub proof fn law_skills_for_intent_exact(
    skills: Seq<SkillInfoView>,
    category: IntentCategory,
    name: Seq<char>,
)
    ensures
        names_for(skills, category).contains(name) <==> exists|i: int|
            0 <= i < skills.len() && #[trigger] skills[i].intent_category == Some(category)
                && skills[i].name == name,
    decreases skills.len(),
{
    if skills.len() > 0 {
        let prev = skills.drop_last();
        let last_i = skills.len() - 1;
        law_skills_for_intent_exact(prev, category, name);
        let p = names_for(prev, category);
        let tagged = skills[last_i].intent_category == Some(category);
        if names_for(skills, category).contains(name) {
            let j = choose|j: int|
                0 <= j < names_for(skills, category).len() && names_for(skills, category)[j]
                    == name;
            if j < p.len() {
                assert(p[j] == name);
                assert(p.contains(name));
                let i = choose|i: int|
                    0 <= i < prev.len() && #[trigger] prev[i].intent_category == Some(category)
                        && prev[i].name == name;
                assert(skills[i] == prev[i]);
            } else {
                assert(tagged && skills[last_i].name == name);
            }
        }
        if exists|i: int|
            0 <= i < skills.len() && #[trigger] skills[i].intent_category == Some(category)
                && skills[i].name == name {
            let i = choose|i: int|
                0 <= i < skills.len() && #[trigger] skills[i].intent_category == Some(category)
                    && skills[i].name == name;
            if i == last_i {
                assert(names_for(skills, category)[p.len() as int] == name);
            } else {
                assert(prev[i] == skills[i]);
                assert(p.contains(name));
                let j = choose|j: int| 0 <= j < p.len() && p[j] == name;
                assert(names_for(skills, category)[j] == name);
            }
        }
    }
}

proof fn lemma_first_named(entries: Seq<SkillDirEntry>, name: Seq<char>, k: int)
    ensures
        first_named_from(entries, name, k) matches Some(j) ==> k <= j < entries.len()
            && is_skill_entry(entries[j]) && entries[j].name@ == name,
    decreases entries.len() - k,
{
    if 0 <= k < entries.len() && !(is_skill_entry(entries[k]) && entries[k].name@ == name) {
        lemma_first_named(entries, name, k + 1);
    }
}

proof fn lemma_scanned_has(entries: Seq<SkillDirEntry>, source: Seq<char>, k: int) -> (i: int)
    requires
        0 <= k < entries.len(),
        is_skill_entry(entries[k]),
    ensures
        0 <= i < scanned(entries, source).len(),
        scanned(entries, source)[i] == skill_of(entries[k], source),
    decreases entries.len(),
{
    let prev = entries.drop_last();
    if k == entries.len() - 1 {
        scanned(prev, source).len() as int
    } else {
        assert(prev[k] == entries[k]);
        lemma_scanned_has(prev, source, k)
    }
}

/// A skill that can be loaded by name is one of the listed skills: loading looks
/// a name up among the same skills that listing shows.
pub proof fn law_loaded_skill_is_listed(has_builtin: bool, listing: SkillListing, name: Seq<char>)
    ensures
        loaded(has_builtin, listing, name) is Some ==> exists|i: int|
            0 <= i < listed(has_builtin, listing).len() && #[trigger] listed(
                has_builtin,
                listing,
            )[i].name == name,
{
    let ws = listing.workspace@;
    let bi = listing.builtin@;
    let all = listed(has_builtin, listing);
    let front = scanned(ws, "workspace"@);
    lemma_first_named(ws, name, 0);
    lemma_first_named(bi, name, 0);
    if loaded(has_builtin, listing, name) is Some {
        match first_named_from(ws, name, 0) {
            Some(k) => {
                let i = lemma_scanned_has(ws, "workspace"@, k);
                assert(all[i] == front[i]);
                assert(all[i].name == name);
            },
            None => {
                let k = first_named_from(bi, name, 0)->0;
                assert(has_builtin);
                let i = lemma_scanned_has(bi, "builtin"@, k);
                assert(all[front.len() + i] == scanned(bi, "builtin"@)[i]);
                assert(all[front.len() + i].name == name);
            },
        }
    }
}

/// The context section is empty exactly when none of the requested skills could
/// be loaded.
pub proof fn law_context_empty_iff_none_loaded(
    has_builtin: bool,
    listing: SkillListing,
    names: Seq<Seq<char>>,
)
    ensures
        context_text(has_builtin, listing, names).len() == 0 <==> forall|i: int|
            0 <= i < names.len() ==> #[trigger] loaded(has_builtin, listing, names[i]) is None,
    decreases names.len(),
{
    reveal_strlit("## Skills\n\n");
    if names.len() > 0 {
        let prev = names.drop_last();
        law_context_empty_iff_none_loaded(has_builtin, listing, prev);
        let parts = context_parts(has_builtin, listing, names);
        let pp = context_parts(has_builtin, listing, prev);
        assert forall|i: int| 0 <= i < prev.len() implies prev[i] == names[i] by {}
        if parts.len() == 0 {
            assert(pp.len() == 0);
            assert forall|i: int|
                0 <= i < names.len() implies #[trigger] loaded(has_builtin, listing, names[i]) is None by {
                if i < prev.len() {
                    assert(prev[i] == names[i]);
                    assert(loaded(has_builtin, listing, prev[i]) is None);
                }
            }
        } else {
            if loaded(has_builtin, listing, names.last()) is None {
                assert(pp.len() > 0);
                if pp.len() == 0 {
                } else {
                    assert(context_text(has_builtin, listing, prev).len() > 0);
                    let i = choose|i: int|
                        0 <= i < prev.len() && !(#[trigger] loaded(
                            has_builtin,
                            listing,
                            prev[i],
                        ) is None);
                    assert(prev[i] == names[i]);
                }
            }
        }
    }
}

/// The summary is empty exactly when there are no skills.
pub proof fn law_summary_empty_iff_no_skills(skills: Seq<SkillInfoView>)
    ensures
        summary_text(skills).len() == 0 <==> skills.len() == 0,
{
    reveal_strlit("<skills>");
    if skills.len() > 0 {
        let parts = seq!["<skills>"@] + skills.map_values(|s: SkillInfoView| summary_line(s)) + seq![
            "</skills>"@,
        ];
        assert(parts[0] == "<skills>"@);
        lemma_join_len(parts, "\n"@);
    }
}

proof fn lemma_scanned_source(entries: Seq<SkillDirEntry>, source: Seq<char>, i: int)
    requires
        0 <= i < scanned(entries, source).len(),
    ensures
        scanned(entries, source)[i].source == source,
    decreases entries.len(),
{
    if entries.len() > 0 {
        let prev = scanned(entries.drop_last(), source);
        if i < prev.len() {
            lemma_scanned_source(entries.drop_last(), source, i);
        }
    }
}

/// A skill is user-invocable exactly when its file has a `user-invocable` field
/// whose value, lowercased, is `true` or `yes`; any other value (`false`, `no`,
/// or one that parses as nothing), a missing field or an unreadable file leaves
/// it not user-invocable.
pub proof fn law_user_invocable_only_when_true(e: SkillDirEntry, source: Seq<char>)
    ensures
        skill_of(e, source).user_invocable <==> match opt_view(e.content) {
            Some(c) => match extract_field_spec(c, "user-invocable"@) {
                Some(raw) => to_lowercase(raw) == "true"@ || to_lowercase(raw) == "yes"@,
                None => false,
            },
            None => false,
        },
{
}

/// Every skill directory of the workspace shows up in the listing under its
/// name, user-invocable exactly when its `user-invocable` field says `true` or
/// `yes`.
pub proof fn law_listed_user_invocable(has_builtin: bool, listing: SkillListing, k: int)
    requires
        0 <= k < listing.workspace@.len(),
        is_skill_entry(listing.workspace@[k]),
    ensures
        exists|i: int|
            0 <= i < listed(has_builtin, listing).len() && #[trigger] listed(
                has_builtin,
                listing,
            )[i].name == listing.workspace@[k].name@ && (listed(has_builtin, listing)[i].user_invocable
                <==> match opt_view(listing.workspace@[k].content) {
                Some(c) => match extract_field_spec(c, "user-invocable"@) {
                    Some(raw) => to_lowercase(raw) == "true"@ || to_lowercase(raw) == "yes"@,
                    None => false,
                },
                None => false,
            }),
{
    let e = listing.workspace@[k];
    let i = lemma_scanned_has(listing.workspace@, "workspace"@, k);
    law_user_invocable_only_when_true(e, "workspace"@);
    let l = listed(has_builtin, listing);
    assert(l[i] == scanned(listing.workspace@, "workspace"@)[i]);
    assert(l[i] == skill_of(e, "workspace"@));
    assert(0 <= i < l.len() && l[i].name == e.name@);
}

/// Listing shows the workspace skills first and the builtin ones after them: each
/// skill names the directory it was found in, and builtin skills are shown only
/// when the loader has a builtin directory.
pub proof fn law_listing_sources(has_builtin: bool, listing: SkillListing, i: int)
    requires
        0 <= i < listed(has_builtin, listing).len(),
    ensures
        i < scanned(listing.workspace@, "workspace"@).len() ==> listed(has_builtin, listing)[i].source
            == "workspace"@,
        i >= scanned(listing.workspace@, "workspace"@).len() ==> has_builtin && listed(
            has_builtin,
            listing,
        )[i].source == "builtin"@,
{
    let front = scanned(listing.workspace@, "workspace"@);
    if i < front.len() {
        lemma_scanned_source(listing.workspace@, "workspace"@, i);
    } else {
        lemma_scanned_source(listing.builtin@, "builtin"@, i - front.len());
    }
}

proof fn lemma_unloadable_prefix(has_builtin: bool, listing: SkillListing, names: Seq<Seq<char>>, u: Seq<char>)
    requires
        loaded(has_builtin, listing, u) is None,
    ensures
        context_parts(has_builtin, listing, seq![u] + names) == context_parts(
            has_builtin,
            listing,
            names,
        ),
    decreases names.len(),
{
    if names.len() == 0 {
        assert(seq![u] + names =~= seq![u]);
        assert(seq![u].drop_last() =~= Seq::<Seq<char>>::empty());
        assert(seq![u].last() == u);
        assert(context_parts(has_builtin, listing, seq![u]) == context_parts(
            has_builtin,
            listing,
            Seq::<Seq<char>>::empty(),
        ));
    } else {
        lemma_unloadable_prefix(has_builtin, listing, names.drop_last(), u);
        assert((seq![u] + names).drop_last() =~= seq![u] + names.drop_last());
        assert((seq![u] + names).last() == names.last());
    }
}

/// Asking for a skill that no listed skill is named changes nothing in the
/// context section, wherever it stands among the names; asking for none gives
/// an empty section.
pub proof fn law_unknown_skill_changes_nothing(
    has_builtin: bool,
    listing: SkillListing,
    names: Seq<Seq<char>>,
    u: Seq<char>,
)
    requires
        forall|i: int|
            0 <= i < listed(has_builtin, listing).len() ==> #[trigger] listed(
                has_builtin,
                listing,
            )[i].name != u,
    ensures
        context_text(has_builtin, listing, Seq::empty()).len() == 0,
        context_text(has_builtin, listing, names.push(u)) == context_text(
            has_builtin,
            listing,
            names,
        ),
        context_text(has_builtin, listing, seq![u] + names) == context_text(
            has_builtin,
            listing,
            names,
        ),
{
    law_loaded_skill_is_listed(has_builtin, listing, u);
    assert(names.push(u).drop_last() =~= names);
    lemma_unloadable_prefix(has_builtin, listing, names, u);
}

} // verus!
