use guild_core::config::{join_path, GuildConfig, UserConfig};
use guild_core::crosslink::{
    calculate_relevance, run_outcome, search_result, slug_to_title, snippet_of, spawn_failure,
    NOT_INSTALLED_MESSAGE,
};
use guild_core::data::{
    Checkpoint, Difficulty, Progress, Project, ProjectRegistry, ProjectStatus, ReviewHistory,
    ReviewRound, ReviewStatus,
};
use guild_core::error::GuildError;
use guild_core::portfolio::{
    escape_html, get_difficulty_labels, get_status_labels, resolve_path, slugify,
};
use guild_core::site::{
    markdown_to_html,
    apprentice_identity, card_description, page_file_name, render_index, render_project_card,
    render_project_page, render_site, NO_PROJECTS_NOTICE,
};
use guild_core::text::{contains_char, normalized, trim};

fn project(name: &str, path: &str, status: ProjectStatus, difficulty: Difficulty) -> Project {
    Project { name: name.to_string(), path: path.to_string(), status, difficulty }
}

fn round(project: &str, number: u32) -> ReviewRound {
    ReviewRound {
        project: project.to_string(),
        round: number,
        status: ReviewStatus::Submitted,
        feedback_ref: None,
    }
}

fn checkpoint(id: &str, completed: bool) -> Checkpoint {
    Checkpoint { id: id.to_string(), title: format!("Title of {id}"), completed }
}

#[test]
fn guild_paths_follow_home() {
    assert_eq!(GuildConfig::guild_dir(Some("/tmp/mock_home")), "/tmp/mock_home/.guild");
    assert_eq!(
        GuildConfig::default_path(Some("/tmp/mock_home")),
        "/tmp/mock_home/.guild/config.toml"
    );
    assert_eq!(GuildConfig::guild_dir(None), "./.guild");
    assert_eq!(GuildConfig::guild_dir(Some("/home/ann/")), "/home/ann/.guild");
    assert_eq!(ProjectRegistry::path(Some("/h")), "/h/.guild/data/projects.toml");
    assert_eq!(Progress::path(Some("/h")), "/h/.guild/data/progress.toml");
    assert_eq!(ReviewHistory::path(Some("/h")), "/h/.guild/data/reviews.toml");
}

#[test]
fn join_path_cases() {
    assert_eq!(join_path("/a", "b"), "/a/b");
    assert_eq!(join_path("/a/", "b"), "/a/b");
    assert_eq!(join_path("", "b"), "b");
    assert_eq!(join_path("/a", "/b"), "/b");
}

#[test]
fn trim_and_keys() {
    assert_eq!(trim("  a b \t\n"), "a b");
    assert_eq!(trim("\u{3000}x\u{2003}"), "x");
    assert_eq!(trim("   "), "");
    assert_eq!(trim(&trim("  q  ")), trim("  q  "));
    assert_eq!(normalized("  ÄBc "), "äbc");
    assert!(contains_char("a\0b", '\0'));
    assert!(!contains_char("ab", '\0'));
}

#[test]
fn added_project_is_found_by_its_given_name() {
    let mut registry = ProjectRegistry { projects: vec![] };
    registry
        .add_project(project("Alpha", "/a", ProjectStatus::Complete, Difficulty::Advanced))
        .unwrap();
    registry
        .add_project(project("  Beta Project ", " /b ", ProjectStatus::InProgress, Difficulty::Beginner))
        .unwrap();
    let found = registry.find_project("  Beta Project ").unwrap();
    assert_eq!(found.name, "Beta Project");
    assert_eq!(found.path, "/b");
    assert_eq!(found.status, ProjectStatus::InProgress);
    assert_eq!(found.difficulty, Difficulty::Beginner);
    // Adding it again is refused, and the registry is unchanged.
    let again = registry.add_project(project("BETA project", "/c", ProjectStatus::Complete, Difficulty::Advanced));
    match again {
        Err(GuildError::DuplicateProject(name)) => assert_eq!(name, "BETA project"),
        other => panic!("expected DuplicateProject, got: {:?}", other),
    }
    assert_eq!(registry.projects.len(), 2);
    assert_eq!(registry.projects[1].path, "/b");
}

#[test]
fn rejected_projects_leave_registry_unchanged() {
    let mut registry = ProjectRegistry { projects: vec![] };
    registry
        .add_project(project("Keep", "/keep", ProjectStatus::NotStarted, Difficulty::Beginner))
        .unwrap();
    for (name, path, needle) in [
        ("", "/p", "name cannot be empty"),
        ("bad/name", "/p", "alphanumeric"),
        ("good", "  ", "path cannot be empty"),
        ("good", "a\0b", "null bytes"),
    ] {
        match registry.add_project(project(name, path, ProjectStatus::NotStarted, Difficulty::Beginner)) {
            Err(GuildError::InvalidProjectProperties(msg)) => assert!(msg.contains(needle)),
            other => panic!("expected InvalidProjectProperties, got: {:?}", other),
        }
        assert_eq!(registry.projects.len(), 1);
        assert_eq!(registry.projects[0].name, "Keep");
    }
    // Unicode letters and digits are allowed in names.
    registry
        .add_project(project("Café 2_x.y-z", "/c", ProjectStatus::NotStarted, Difficulty::Beginner))
        .unwrap();
    assert_eq!(registry.projects.len(), 2);
}

#[test]
fn complete_checkpoint_is_idempotent_and_marks_first_match_only() {
    let mut progress = Progress {
        checkpoints: vec![checkpoint("a", false), checkpoint(" A ", false), checkpoint("b", false)],
    };
    progress.complete_checkpoint("a").unwrap();
    assert!(progress.checkpoints[0].completed);
    assert!(!progress.checkpoints[1].completed);
    progress.complete_checkpoint("a").unwrap();
    assert!(progress.checkpoints[0].completed);
    assert!(!progress.checkpoints[1].completed);
    assert_eq!(progress.checkpoints[0].id, "a");
    assert_eq!(progress.checkpoints[0].title, "Title of a");
    match progress.complete_checkpoint("  zz ") {
        Err(GuildError::CheckpointNotFound(id)) => assert_eq!(id, "  zz "),
        other => panic!("expected CheckpointNotFound, got: {:?}", other),
    }
}

#[test]
fn completing_next_checkpoint_advances() {
    let mut progress = Progress {
        checkpoints: vec![checkpoint("one", false), checkpoint("two", true), checkpoint("three", false)],
    };
    let next = progress.next_incomplete().unwrap().id.clone();
    assert_eq!(next, "one");
    progress.complete_checkpoint(&next).unwrap();
    assert_eq!(progress.next_incomplete().unwrap().id, "three");
    let empty = Progress { checkpoints: vec![] };
    assert!(empty.next_incomplete().is_none());
}

#[test]
fn latest_round_after_add_and_ties() {
    let mut history = ReviewHistory { reviews: vec![] };
    history.add_round(round("P", 4)).unwrap();
    history.add_round(round("  p ", 2)).unwrap();
    assert_eq!(history.reviews[1].project, "p");
    assert!(history.latest_round("P").unwrap().round >= 2);
    assert_eq!(history.latest_round("p").unwrap().round, 4);
    // With equal numbers (built directly), the last one is the latest.
    let tied = ReviewHistory {
        reviews: vec![
            ReviewRound { feedback_ref: Some("first".to_string()), ..round("x", 3) },
            ReviewRound { feedback_ref: Some("second".to_string()), ..round("X", 3) },
        ],
    };
    assert_eq!(tied.latest_round("x").unwrap().feedback_ref.as_deref(), Some("second"));
    match history.add_round(round("p", 4)) {
        Err(GuildError::DuplicateReviewRound(p, n)) => {
            assert_eq!(p, "p");
            assert_eq!(n, 4);
        }
        other => panic!("expected DuplicateReviewRound, got: {:?}", other),
    }
    assert_eq!(history.reviews.len(), 2);
}

#[test]
fn escaped_text_has_no_markup() {
    let out = escape_html("<a href=\"x\">'&'</a>");
    assert_eq!(out, "&lt;a href=&quot;x&quot;&gt;&#x27;&amp;&#x27;&lt;/a&gt;");
    assert!(!out.contains('<') && !out.contains('>') && !out.contains('"') && !out.contains('\''));
    assert_eq!(escape_html(""), "");
}

#[test]
fn slugs_are_well_shaped() {
    for name in ["--Hello--World--", "  ", "Über Café", "a_b", "ÄX!"] {
        let slug = slugify(name);
        assert!(!slug.starts_with('-') && !slug.ends_with('-'));
        assert!(!slug.contains("--"));
    }
    assert_eq!(slugify("Über Café"), "Über-café");
    assert_eq!(slugify("--Hello--World--"), "hello-world");
    assert_eq!(slugify("!!!"), "");
}

#[test]
fn resolve_path_expands_home() {
    let home = Some("/users/mockapprentice");
    assert_eq!(resolve_path("~/projects/a", home), "/users/mockapprentice/projects/a");
    assert_eq!(resolve_path("~", home), "/users/mockapprentice");
    assert_eq!(resolve_path("/absolute/path", home), "/absolute/path");
    assert_eq!(resolve_path("relative/path", home), "relative/path");
    assert_eq!(resolve_path("~/x", None), "~/x");
    assert_eq!(resolve_path("~x", home), "~x");
}

#[test]
fn labels() {
    assert_eq!(get_status_labels(&ProjectStatus::UnderReview), ("under-review", "Under Review"));
    assert_eq!(get_status_labels(&ProjectStatus::NotStarted), ("not-started", "Not Started"));
    assert_eq!(get_difficulty_labels(&Difficulty::Intermediate), ("intermediate", "Intermediate"));
}

#[test]
fn titles_snippets_and_relevance() {
    assert_eq!(slug_to_title("getting-started"), "Getting Started");
    assert_eq!(slug_to_title("a--b"), "A  B");
    assert_eq!(slug_to_title(""), "");
    assert_eq!(slug_to_title("ß-x"), "SS X");
    let lines = vec!["  line one".to_string(), "line two  ".to_string()];
    assert_eq!(snippet_of(&lines), "line one\nline two");
    assert_eq!(snippet_of(&vec![]), "");
    // slug has no "config file"; snippet has it once (5); "config" occurs
    // twice and "file" once in the snippet (3).
    assert_eq!(calculate_relevance("Config File", "config-guide", "Edit the config FILE. config!"), 8);
    // the slug contains the query (10) and the snippet too (5); the
    // one-byte word "a" is not counted; "aa" occurs twice, disjointly, in "aaaaa".
    assert_eq!(calculate_relevance("a", "a-b", "a"), 15);
    assert_eq!(calculate_relevance("aa", "b", "aaaaa"), 5 + 2);
    // a one-character word that takes two bytes is counted
    assert_eq!(calculate_relevance("é x", "q", "é é"), 2);
}

#[test]
fn crosslink_outcomes() {
    let args = vec!["knowledge".to_string(), "search".to_string()];
    match run_outcome(&args, true, "out".to_string(), "ignored") {
        Ok(out) => assert_eq!(out, "out"),
        other => panic!("expected Ok, got: {:?}", other),
    }
    match run_outcome(&args, false, String::new(), "  boom \n") {
        Err(GuildError::Crosslink(m)) => assert_eq!(m, "crosslink knowledge failed: boom"),
        other => panic!("expected Crosslink, got: {:?}", other),
    }
    match run_outcome(&vec![], false, String::new(), "x") {
        Err(GuildError::Crosslink(m)) => assert_eq!(m, "crosslink  failed: x"),
        other => panic!("expected Crosslink, got: {:?}", other),
    }
}

#[test]
fn pages_cards_and_index() {
    let alpha = project("Project Alpha", "/a", ProjectStatus::Complete, Difficulty::Beginner);
    let readme = "# Project Alpha\n\nCompare a < b & c.\n\nSome other section.\n";
    assert_eq!(page_file_name(&alpha.name), "project-alpha.html");
    assert_eq!(card_description(readme), "Compare a &lt; b &amp; c.");
    assert_eq!(card_description("# Only a title\n"), "No description available.");

    let page = render_project_page(&alpha, readme);
    assert!(page.starts_with("<!DOCTYPE html>"));
    assert!(page.contains("<title>Project Alpha - Project Details</title>"));
    assert!(page.contains("<span class=\"badge status-badge status-complete\">Complete</span>"));
    assert!(page.contains("<span class=\"badge diff-badge diff-beginner\">Beginner</span>"));
    assert!(page.contains("<h1>Project Alpha</h1>"));
    assert!(page.ends_with("</html>"));

    let card = render_project_card(&alpha, readme);
    assert!(card.contains("<a href=\"project-alpha.html\">Project Alpha</a>"));
    assert!(card.contains("<p class=\"project-description\">Compare a &lt; b &amp; c.</p>"));

    let empty_index = render_index("Jane <Doe>", "janedoe", &vec![]);
    assert!(empty_index.contains("<title>Jane &lt;Doe&gt;'s Guild Portfolio</title>"));
    assert!(empty_index.contains(NO_PROJECTS_NOTICE));

    let index = render_index("Jane Doe", "janedoe", &vec!["CARD1".to_string(), "CARD2".to_string()]);
    assert!(index.contains("Jane Doe's Portfolio"));
    assert!(index.contains("@janedoe"));
    assert!(index.contains("CARD1\nCARD2"));
}

#[test]
fn whole_site() {
    let projects = vec![
        (
            project("Project Alpha", "/a", ProjectStatus::Complete, Difficulty::Beginner),
            "# Project Alpha\n\nThis is the description of project alpha.\n".to_string(),
        ),
        (
            project("Project Beta", "/b", ProjectStatus::InProgress, Difficulty::Intermediate),
            "# Project Beta\n\nThis is the description of project beta.\n".to_string(),
        ),
    ];
    let site = render_site("Jane Doe", "janedoe", &projects);
    assert_eq!(site.pages.len(), 2);
    assert_eq!(site.pages[0].file_name, "project-alpha.html");
    assert_eq!(site.pages[1].file_name, "project-beta.html");
    assert!(site.pages[0].html.contains("This is the description of project alpha."));
    assert!(site.index_html.contains("Jane Doe's Portfolio"));
    assert!(site.index_html.contains("project-beta.html"));
    assert!(site.index_html.contains("This is the description of project beta."));
    assert!(site.index_html.contains("status-inprogress") == false);
    assert!(site.index_html.contains("status-in-progress"));

    let config = GuildConfig { user: UserConfig { name: "Jane".to_string(), handle: "jd".to_string() } };
    assert_eq!(apprentice_identity(Some(&config)), ("Jane".to_string(), "jd".to_string()));
    assert_eq!(apprentice_identity(None), ("Apprentice".to_string(), "apprentice".to_string()));
}

#[test]
fn search_results_and_spawn_failures() {
    let lines = vec!["  Set the config value.".to_string(), "config again ".to_string()];
    let (title, snippet, relevance) = search_result("config", "config-basics", &lines);
    assert_eq!(title, "Config Basics");
    assert_eq!(snippet, "Set the config value.\nconfig again");
    // slug contains "config" (10), snippet too (5), two occurrences of the word (2)
    assert_eq!(relevance, 17);
    match spawn_failure(true, "ignored") {
        GuildError::Crosslink(m) => assert_eq!(m, NOT_INSTALLED_MESSAGE),
        other => panic!("expected Crosslink, got: {:?}", other),
    }
    match spawn_failure(false, "permission denied") {
        GuildError::Crosslink(m) => assert_eq!(m, "failed to spawn crosslink: permission denied"),
        other => panic!("expected Crosslink, got: {:?}", other),
    }
}

#[test]
fn slugs_are_fixed_points() {
    for name in ["My Project", "Project-123_4.5", "  Special   Characters!@# ", "Über Café", "ÀB-c", ""] {
        let slug = slugify(name);
        assert_eq!(slugify(&slug), slug);
        assert!(!slug.chars().any(|c| c.is_ascii_uppercase()));
    }
    assert_eq!(slugify("ABC xyz"), "abc-xyz");
}

#[test]
fn readme_html_uses_extensions() {
    let html = markdown_to_html("| a | b |\n|---|---|\n| 1 | 2 |\n\n~~gone~~ \"quoted\"");
    assert!(html.contains("<table>"));
    assert!(html.contains("<del>gone</del>"));
    assert!(html.contains("\u{201c}quoted\u{201d}"));
}
