use std::path::PathBuf;

use crabbybot_core::frontmatter::{
    category_from_lowercase, extract_description, extract_field, extract_intent_category,
    extract_user_invocable, flag_from_lowercase, strip_frontmatter,
};
use crabbybot_core::intent::IntentCategory;
use crabbybot_core::skills::{SkillDirEntry, SkillListing, SkillsLoader};

#[test]
fn strip_frontmatter_removes_yaml() {
    let content = "---\ndescription: test\n---\n\nHello world";
    assert_eq!(strip_frontmatter(content), "Hello world");
}

#[test]
fn extract_description_simple() {
    let content = "---\ndescription: \"My cool skill\"\n---\n\nContent here";
    assert_eq!(extract_description(content), Some("My cool skill".into()));
}

#[test]
fn extract_description_folded_block_scalar() {
    let content =
        "---\nname: test\ndescription: >\n  Advanced prediction market\n  analysis for Polymarket.\n---\n\nBody";
    let desc = extract_description(content).unwrap();
    assert!(desc.contains("Advanced prediction market"));
    assert!(desc.contains("analysis for Polymarket."));
}

#[test]
fn extract_intent_category_parses_variants() {
    let content = "---\nintent-category: polymarket-read\n---\n";
    assert_eq!(
        extract_intent_category(content),
        Some(IntentCategory::PolymarketRead)
    );

    let content = "---\nintent-category: crypto\n---\n";
    assert_eq!(
        extract_intent_category(content),
        Some(IntentCategory::CryptoTokens)
    );
}

#[test]
fn extract_user_invocable_parses_true() {
    let content = "---\nuser-invocable: true\n---\n";
    assert_eq!(extract_user_invocable(content), Some(true));
}

#[test]
fn extract_user_invocable_defaults_none_if_missing() {
    let content = "---\nname: test\n---\n";
    assert_eq!(extract_user_invocable(content), None);
}

#[test]
fn no_frontmatter_returns_none() {
    let content = "Just plain markdown";
    assert_eq!(strip_frontmatter(content), "Just plain markdown");
    assert_eq!(extract_description(content), None);
    assert_eq!(extract_intent_category(content), None);
}

#[test]
fn extract_field_unquoted_value() {
    let content = "---\nname: my-skill\n---\n";
    assert_eq!(extract_field(content, "name"), Some("my-skill".into()));
}

// ── Further cases ────────────────────────────────────────────────────────────

#[test]
fn folded_block_is_joined_with_spaces() {
    let content = "---\ndescription: >\n  one\n\ttwo  \nnot: part\n---\n";
    assert_eq!(extract_description(content), Some("one two".into()));
}

#[test]
fn empty_value_reads_folded_lines() {
    let content = "---\ndescription:\n  folded text\n---\n";
    assert_eq!(extract_description(content), Some("folded text".into()));
}

#[test]
fn folded_block_without_lines_is_none() {
    let content = "---\ndescription: >\nname: x\n---\n";
    assert_eq!(extract_description(content), None);
}

#[test]
fn single_quotes_are_stripped_after_double_quotes() {
    let content = "---\nname: '\"x\"'\n---\n";
    // trim_matches('"') first (nothing to strip at the ends), then '\''.
    assert_eq!(extract_field(content, "name"), Some("\"x\"".into()));
    let content = "---\nname: \"'y'\"\n---\n";
    assert_eq!(extract_field(content, "name"), Some("y".into()));
}

#[test]
fn first_matching_line_wins_and_indentation_is_ignored() {
    let content = "---\n   name:   first  \nname: second\n---\n";
    assert_eq!(extract_field(content, "name"), Some("first".into()));
}

#[test]
fn key_must_be_followed_by_colon() {
    let content = "---\nnames: a\nname: b\n---\n";
    assert_eq!(extract_field(content, "name"), Some("b".into()));
}

#[test]
fn crlf_lines_are_split() {
    let content = "---\r\nname: win\r\n---\r\nbody";
    assert_eq!(extract_field(content, "name"), Some("win".into()));
}

#[test]
fn unterminated_frontmatter_is_kept() {
    let content = "---\nname: x\nno end";
    assert_eq!(strip_frontmatter(content), content);
    assert_eq!(extract_field(content, "name"), None);
}

#[test]
fn frontmatter_must_start_the_text() {
    let content = "\n---\nname: x\n---\n";
    assert_eq!(strip_frontmatter(content), content);
    assert_eq!(extract_field(content, "name"), None);
}

#[test]
fn strip_keeps_text_after_closing_marker() {
    assert_eq!(strip_frontmatter("---a---  \n\t body\n"), "body\n");
    assert_eq!(strip_frontmatter("------rest"), "rest");
}

#[test]
fn intent_category_is_case_insensitive_and_knows_aliases() {
    let c = "---\nintent-category: Polymarket_Trade\n---\n";
    assert_eq!(extract_intent_category(c), Some(IntentCategory::PolymarketTrade));
    let c = "---\nintent-category: CRYPTO-TOKENS\n---\n";
    assert_eq!(extract_intent_category(c), Some(IntentCategory::CryptoTokens));
    let c = "---\nintent-category: unknown\n---\n";
    assert_eq!(extract_intent_category(c), None);
}

#[test]
fn lowercase_parsers() {
    assert_eq!(category_from_lowercase("system"), Some(IntentCategory::System));
    assert_eq!(category_from_lowercase("research"), Some(IntentCategory::Research));
    assert_eq!(category_from_lowercase("general"), Some(IntentCategory::General));
    assert_eq!(category_from_lowercase("crypto_tokens"), Some(IntentCategory::CryptoTokens));
    assert_eq!(category_from_lowercase("System"), None);
    assert_eq!(flag_from_lowercase("yes"), Some(true));
    assert_eq!(flag_from_lowercase("no"), Some(false));
    assert_eq!(flag_from_lowercase("false"), Some(false));
    assert_eq!(flag_from_lowercase("maybe"), None);
}

#[test]
fn user_invocable_accepts_yes_and_no() {
    assert_eq!(extract_user_invocable("---\nuser-invocable: YES\n---\n"), Some(true));
    assert_eq!(extract_user_invocable("---\nuser-invocable: no\n---\n"), Some(false));
    assert_eq!(extract_user_invocable("---\nuser-invocable: 1\n---\n"), None);
}

#[test]
fn category_labels() {
    assert_eq!(IntentCategory::PolymarketRead.as_str(), "polymarket_read");
    assert_eq!(IntentCategory::Prediction.as_str(), "prediction");
}

// ── Loader over a listing ─────────────────────────────────────────────────────

fn entry(name: &str, content: Option<&str>) -> SkillDirEntry {
    SkillDirEntry {
        name: name.to_string(),
        is_dir: true,
        skill_file: PathBuf::from(format!("/skills/{}/SKILL.md", name)),
        skill_file_exists: true,
        content: content.map(|c| c.to_string()),
    }
}

fn sample_listing() -> SkillListing {
    let mut not_a_dir = entry("README.md", Some("x"));
    not_a_dir.is_dir = false;
    let mut no_file = entry("empty", None);
    no_file.skill_file_exists = false;
    SkillListing {
        workspace: vec![
            entry(
                "alpha",
                Some("---\ndescription: Alpha skill\nintent-category: polymarket-read\nuser-invocable: yes\n---\n\nAlpha body"),
            ),
            not_a_dir,
            no_file,
            entry("plain", Some("No frontmatter here")),
        ],
        builtin: vec![
            entry("alpha", Some("---\ndescription: builtin alpha\n---\nBuiltin body")),
            entry("beta", Some("---\nintent-category: polymarket_read\n---\nBeta body")),
            entry("unreadable", None),
        ],
    }
}

#[test]
fn list_skills_scans_workspace_then_builtin() {
    let loader = SkillsLoader::new(std::path::Path::new("/ws"), Some(PathBuf::from("/builtin")));
    let skills = loader.list_skills(&sample_listing());
    let names: Vec<&str> = skills.iter().map(|s| s.name.as_str()).collect();
    assert_eq!(names, vec!["alpha", "plain", "alpha", "beta", "unreadable"]);
    assert_eq!(skills[0].description, "Alpha skill");
    assert_eq!(skills[0].source, "workspace");
    assert_eq!(skills[0].intent_category, Some(IntentCategory::PolymarketRead));
    assert!(skills[0].user_invocable);
    assert_eq!(skills[0].path, PathBuf::from("/skills/alpha/SKILL.md"));
    assert_eq!(skills[1].description, "Skill: plain");
    assert_eq!(skills[1].intent_category, None);
    assert!(!skills[1].user_invocable);
    assert_eq!(skills[2].source, "builtin");
    assert_eq!(skills[4].description, "Skill: unreadable");
}

#[test]
fn list_skills_without_builtin_dir_ignores_builtin_entries() {
    let loader = SkillsLoader::new(std::path::Path::new("/ws"), None);
    let skills = loader.list_skills(&sample_listing());
    assert_eq!(skills.len(), 2);
    assert!(loader.builtin_skills_dir().is_none());
    assert_eq!(loader.workspace_skills_dir(), &PathBuf::from("/ws/skills"));
}

#[test]
fn skills_for_intent_selects_tagged_skills() {
    let loader = SkillsLoader::new(std::path::Path::new("/ws"), Some(PathBuf::from("/b")));
    let listing = sample_listing();
    assert_eq!(
        loader.skills_for_intent(&listing, IntentCategory::PolymarketRead),
        vec!["alpha".to_string(), "beta".to_string()]
    );
    assert!(loader.skills_for_intent(&listing, IntentCategory::System).is_empty());
}

#[test]
fn load_skill_prefers_workspace_and_strips_frontmatter() {
    let loader = SkillsLoader::new(std::path::Path::new("/ws"), Some(PathBuf::from("/b")));
    let listing = sample_listing();
    assert_eq!(loader.load_skill(&listing, "alpha"), Some("Alpha body".to_string()));
    assert_eq!(loader.load_skill(&listing, "beta"), Some("Beta body".to_string()));
    assert_eq!(loader.load_skill(&listing, "unreadable"), None);
    assert_eq!(loader.load_skill(&listing, "README.md"), None);
    assert_eq!(loader.load_skill(&listing, "missing"), None);
}

#[test]
fn load_skills_for_context_formats_sections() {
    let loader = SkillsLoader::new(std::path::Path::new("/ws"), Some(PathBuf::from("/b")));
    let listing = sample_listing();
    let names = vec!["alpha".to_string(), "missing".to_string(), "plain".to_string()];
    assert_eq!(
        loader.load_skills_for_context(&listing, &names),
        "## Skills\n\n### Skill: alpha\nAlpha body\n\n### Skill: plain\nNo frontmatter here"
    );
    assert_eq!(loader.load_skills_for_context(&listing, &["missing".to_string()]), "");
    assert_eq!(loader.load_skills_for_context(&listing, &[]), "");
}

#[test]
fn build_summary_lists_every_skill() {
    let loader = SkillsLoader::new(std::path::Path::new("/ws"), None);
    let summary = loader.build_summary(&sample_listing());
    assert_eq!(
        summary,
        "<skills>\n  <skill name=\"alpha\" source=\"workspace\" intent=\"polymarket_read\">Alpha skill</skill>\n  <skill name=\"plain\" source=\"workspace\">Skill: plain</skill>\n</skills>"
    );
    let empty = SkillListing { workspace: vec![], builtin: vec![] };
    assert_eq!(loader.build_summary(&empty), "");
}

#[test]
fn unknown_skill_changes_nothing_in_context() {
    let loader = SkillsLoader::new(std::path::Path::new("/ws"), Some(PathBuf::from("/b")));
    let listing = sample_listing();
    let names = vec!["alpha".to_string(), "beta".to_string()];
    let base = loader.load_skills_for_context(&listing, &names);
    let mut after = names.clone();
    after.push("nope".to_string());
    let mut before = vec!["nope".to_string()];
    before.extend(names.clone());
    assert_eq!(loader.load_skills_for_context(&listing, &after), base);
    assert_eq!(loader.load_skills_for_context(&listing, &before), base);
}
