use pulldown_cmark::{html, Options, Parser};
use vstd::prelude::*;

use crate::config::GuildConfig;
use crate::data::{Project, ProjectView};
use crate::portfolio::{
    difficulty_labels, escape_html, escaped, extract_first_paragraph, first_paragraph_of,
    get_difficulty_labels, get_status_labels, markdown_events, slug_of, slugify, status_labels,
};
use crate::text::{append_chars, chars_of, join_lines, join_with, string_of, strings_view, trimmed};

verus! {

/// The start of every generated HTML document, up to the text of its title.
pub const DOCUMENT_HEAD: &'static str = r#"<!DOCTYPE html>
<html lang="en">
<head>
    <meta charset="UTF-8">
    <meta name="viewport" content="width=device-width, initial-scale=1.0">
    <title>"#;

/// The end of every generated HTML document, from the end of its main part.
pub const DOCUMENT_TAIL: &'static str = r#"
        </main>

        <footer class="portfolio-footer">
            <p>Generated with <code>guild-portfolio</code></p>
        </footer>
    </div>
</body>
</html>"#;

/// A project page, from the end of the title text to the heading text.
pub const PAGE_AFTER_TITLE: &'static str = r#" - Project Details</title>
    <link rel="preconnect" href="https://fonts.googleapis.com">
    <link rel="preconnect" href="https://fonts.gstatic.com" crossorigin>
    <link href="https://fonts.googleapis.com/css2?family=Plus+Jakarta+Sans:wght@300;400;500;600;700&display=swap" rel="stylesheet">
    <link rel="stylesheet" href="style.css">
</head>
<body>
    <div class="container animate-fade-in">
        <header class="project-page-header">
            <a href="index.html" class="back-link">&larr; Back to Portfolio</a>
            <h1 class="project-page-title">"#;

/// A project page, from the end of the heading text to the status class.
pub const PAGE_BEFORE_BADGES: &'static str = r#"</h1>
            <div class="project-meta">
                <span class="badge status-badge status-"#;

/// Between a badge's class and its label.
pub const BADGE_CLASS_END: &'static str = r#"">"#;

/// A project page, from the status label to the difficulty class.
pub const PAGE_BETWEEN_BADGES: &'static str = r#"</span>
                <span class="badge diff-badge diff-"#;

/// A project page, from the difficulty label to the README's HTML.
pub const PAGE_AFTER_BADGES: &'static str = r#"</span>
            </div>
        </header>

        <main class="readme-content">
            "#;

/// A project card, up to its link target.
pub const CARD_HEAD: &'static str = r#"            <article class="project-card">
                <div class="project-header">
                    <h2 class="project-title"><a href=""#;

/// A project card, from the project name to the status class.
pub const CARD_BEFORE_BADGES: &'static str = r#"</a></h2>
                    <div class="badges">
                        <span class="badge status-badge status-"#;

/// A project card, from the status label to the difficulty class.
pub const CARD_BETWEEN_BADGES: &'static str = r#"</span>
                        <span class="badge diff-badge diff-"#;

/// A project card, from the difficulty label to the description.
pub const CARD_AFTER_BADGES: &'static str = r#"</span>
                    </div>
                </div>
                <p class="project-description">"#;

/// A project card, from the description to the second link target.
pub const CARD_BEFORE_LINK: &'static str = r#"</p>
                <a class="view-project-link" href=""#;

/// The end of a project card.
pub const CARD_TAIL: &'static str = r#"">View Project README &rarr;</a>
            </article>"#;

/// The index page, from the end of the title text to the heading text.
pub const INDEX_AFTER_TITLE: &'static str = r#"'s Guild Portfolio</title>
    <link rel="preconnect" href="https://fonts.googleapis.com">
    <link rel="preconnect" href="https://fonts.gstatic.com" crossorigin>
    <link href="https://fonts.googleapis.com/css2?family=Plus+Jakarta+Sans:wght@300;400;500;600;700&display=swap" rel="stylesheet">
    <link rel="stylesheet" href="style.css">
</head>
<body>
    <div class="container animate-fade-in">
        <header class="portfolio-header">
            <h1 class="gradient-text">"#;

/// The index page, from the heading text to the handle.
pub const INDEX_AFTER_HEADING: &'static str = r#"'s Portfolio</h1>
            <p class="subtitle">A collection of apprentice projects by <span class="handle">@"#;

/// The index page, from the handle to the project cards.
pub const INDEX_BEFORE_PROJECTS: &'static str = r#"</span></p>
        </header>

        <main class="projects-grid">
"#;

/// What the index shows in place of cards when no project page was generated.
pub const NO_PROJECTS_NOTICE: &'static str = "            <div style=\"text-align: center; width: 100%; grid-column: 1 / -1; color: var(--text-secondary);\">No projects have been successfully generated yet. Check that paths in projects.toml exist and contain README.md files.</div>";

/// The description of a project whose README has no first paragraph.
pub const NO_DESCRIPTION: &'static str = "No description available.";

/// The HTML that `pulldown_cmark::html::push_html` writes for the Markdown text
/// `text`, parsed by `Parser::new_ext` with the given extensions enabled.
pub uninterp spec fn rendered_html(
    text: Seq<char>,
    tables: bool,
    footnotes: bool,
    strikethrough: bool,
    tasklists: bool,
    smart_punctuation: bool,
) -> Seq<char>;

/// `pulldown_cmark::html::push_html`, into an empty string, of
/// `Parser::new_ext(markdown, options)`, where `options` enables exactly the
/// extensions whose flags are set. The HTML is named: it depends on the text
/// and the flags alone.
#[verifier::external_body]
fn render_markdown(
    markdown: &str,
    tables: bool,
    footnotes: bool,
    strikethrough: bool,
    tasklists: bool,
    smart_punctuation: bool,
) -> (r: String)
    ensures
        r@ == rendered_html(markdown@, tables, footnotes, strikethrough, tasklists, smart_punctuation),
{
    let mut options = Options::empty();
    options.set(Options::ENABLE_TABLES, tables);
    options.set(Options::ENABLE_FOOTNOTES, footnotes);
    options.set(Options::ENABLE_STRIKETHROUGH, strikethrough);
    options.set(Options::ENABLE_TASKLISTS, tasklists);
    options.set(Options::ENABLE_SMART_PUNCTUATION, smart_punctuation);
    let mut html_output = String::new();
    html::push_html(&mut html_output, Parser::new_ext(markdown, options));
    html_output
}

/// The HTML of a README: Markdown with tables, footnotes, strikethrough, task
/// lists and smart punctuation.
pub open spec fn readme_html_of(text: Seq<char>) -> Seq<char> {
    rendered_html(text, true, true, true, true, true)
}

/// A README rendered as HTML, with tables, footnotes, strikethrough, task lists
/// and smart punctuation enabled.
pub fn markdown_to_html(markdown: &str) -> (r: String)
    ensures
        r@ == readme_html_of(markdown@),
{
    render_markdown(markdown, true, true, true, true, true)
}

/// The file name of a project's page: its slug with `.html` after it.
pub open spec fn page_file_of(name: Seq<char>) -> Seq<char> {
    slug_of(name) + ".html"@
}

/// The description on a project's card: the first paragraph of its README,
/// escaped, or a fixed notice where there is none.
pub open spec fn description_of(readme: Seq<char>) -> Seq<char> {
    let d = trimmed(first_paragraph_of(markdown_events(readme)));
    if d.len() == 0 {
        NO_DESCRIPTION@
    } else {
        escaped(d)
    }
}

/// A project's page.
pub open spec fn project_page_of(p: ProjectView, readme: Seq<char>) -> Seq<char> {
    let name = escaped(p.name);
    DOCUMENT_HEAD@ + name + PAGE_AFTER_TITLE@ + name + PAGE_BEFORE_BADGES@
        + status_labels(p.status).0 + BADGE_CLASS_END@ + status_labels(p.status).1
        + PAGE_BETWEEN_BADGES@ + difficulty_labels(p.difficulty).0 + BADGE_CLASS_END@
        + difficulty_labels(p.difficulty).1 + PAGE_AFTER_BADGES@ + readme_html_of(readme)
        + DOCUMENT_TAIL@
}

/// A project's card on the index page.
pub open spec fn project_card_of(p: ProjectView, readme: Seq<char>) -> Seq<char> {
    let file = page_file_of(p.name);
    CARD_HEAD@ + file + BADGE_CLASS_END@ + escaped(p.name) + CARD_BEFORE_BADGES@
        + status_labels(p.status).0 + BADGE_CLASS_END@ + status_labels(p.status).1
        + CARD_BETWEEN_BADGES@ + difficulty_labels(p.difficulty).0 + BADGE_CLASS_END@
        + difficulty_labels(p.difficulty).1 + CARD_AFTER_BADGES@ + description_of(readme)
        + CARD_BEFORE_LINK@ + file + CARD_TAIL@
}

/// The cards, one per line, or the notice where there is none.
pub open spec fn cards_html_of(cards: Seq<Seq<char>>) -> Seq<char> {
    if cards.len() == 0 {
        NO_PROJECTS_NOTICE@
    } else {
        join_with(cards, seq!['\n'])
    }
}

/// The index page.
pub open spec fn index_page_of(name: Seq<char>, handle: Seq<char>, cards: Seq<Seq<char>>) -> Seq<char> {
    let n = escaped(name);
    DOCUMENT_HEAD@ + n + INDEX_AFTER_TITLE@ + n + INDEX_AFTER_HEADING@ + escaped(handle)
        + INDEX_BEFORE_PROJECTS@ + cards_html_of(cards) + DOCUMENT_TAIL@
}

/// Appends the characters of `s` to `out`.
fn push_str(out: &mut Vec<char>, s: &str)
    ensures
        final(out)@ == old(out)@ + s@,
{
    let more = chars_of(s);
    append_chars(out, &more);
}

/// The file name of a project's page.
pub fn page_file_name(name: &str) -> (r: String)
    ensures
        r@ == page_file_of(name@),
{
    let mut out = chars_of(slugify(name).as_str());
    push_str(&mut out, ".html");
    string_of(&out)
}

/// The description on a project's card.
pub fn card_description(readme: &str) -> (r: String)
    ensures
        r@ == description_of(readme@),
{
    let raw = extract_first_paragraph(readme);
    if raw.as_str().is_empty() {
        String::from_str(NO_DESCRIPTION)
    } else {
        escape_html(raw.as_str())
    }
}

/// A project's page, with its README rendered as HTML.
pub fn render_project_page(project: &Project, readme: &str) -> (r: String)
    ensures
        r@ == project_page_of(project@, readme@),
{
    let name = escape_html(project.name.as_str());
    let (status_class, status_label) = get_status_labels(&project.status);
    let (diff_class, diff_label) = get_difficulty_labels(&project.difficulty);
    let readme_html = markdown_to_html(readme);
    let mut out: Vec<char> = Vec::new();
    push_str(&mut out, DOCUMENT_HEAD);
    push_str(&mut out, name.as_str());
    push_str(&mut out, PAGE_AFTER_TITLE);
    push_str(&mut out, name.as_str());
    push_str(&mut out, PAGE_BEFORE_BADGES);
    push_str(&mut out, status_class);
    push_str(&mut out, BADGE_CLASS_END);
    push_str(&mut out, status_label);
    push_str(&mut out, PAGE_BETWEEN_BADGES);
    push_str(&mut out, diff_class);
    push_str(&mut out, BADGE_CLASS_END);
    push_str(&mut out, diff_label);
    push_str(&mut out, PAGE_AFTER_BADGES);
    push_str(&mut out, readme_html.as_str());
    push_str(&mut out, DOCUMENT_TAIL);
    assert(out@ =~= project_page_of(project@, readme@));
    string_of(&out)
}

/// A project's card for the index page.
pub fn render_project_card(project: &Project, readme: &str) -> (r: String)
    ensures
        r@ == project_card_of(project@, readme@),
{
    let file = page_file_name(project.name.as_str());
    let name = escape_html(project.name.as_str());
    let (status_class, status_label) = get_status_labels(&project.status);
    let (diff_class, diff_label) = get_difficulty_labels(&project.difficulty);
    let description = card_description(readme);
    let mut out: Vec<char> = Vec::new();
    push_str(&mut out, CARD_HEAD);
    push_str(&mut out, file.as_str());
    push_str(&mut out, BADGE_CLASS_END);
    push_str(&mut out, name.as_str());
    push_str(&mut out, CARD_BEFORE_BADGES);
    push_str(&mut out, status_class);
    push_str(&mut out, BADGE_CLASS_END);
    push_str(&mut out, status_label);
    push_str(&mut out, CARD_BETWEEN_BADGES);
    push_str(&mut out, diff_class);
    push_str(&mut out, BADGE_CLASS_END);
    push_str(&mut out, diff_label);
    push_str(&mut out, CARD_AFTER_BADGES);
    push_str(&mut out, description.as_str());
    push_str(&mut out, CARD_BEFORE_LINK);
    push_str(&mut out, file.as_str());
    push_str(&mut out, CARD_TAIL);
    assert(out@ =~= project_card_of(project@, readme@));
    string_of(&out)
}

/// The index page, listing the given project cards.
pub fn render_index(apprentice_name: &str, apprentice_handle: &str, cards: &Vec<String>) -> (r: String)
    ensures
        r@ == index_page_of(apprentice_name@, apprentice_handle@, strings_view(cards@)),
{
    let name = escape_html(apprentice_name);
    let handle = escape_html(apprentice_handle);
    let mut out: Vec<char> = Vec::new();
    push_str(&mut out, DOCUMENT_HEAD);
    push_str(&mut out, name.as_str());
    push_str(&mut out, INDEX_AFTER_TITLE);
    push_str(&mut out, name.as_str());
    push_str(&mut out, INDEX_AFTER_HEADING);
    push_str(&mut out, handle.as_str());
    push_str(&mut out, INDEX_BEFORE_PROJECTS);
    let ghost views = strings_view(cards@);
    if cards.len() == 0 {
        push_str(&mut out, NO_PROJECTS_NOTICE);
    } else {
        let body = join_lines(cards);
        append_chars(&mut out, &body);
    }
    push_str(&mut out, DOCUMENT_TAIL);
    assert(out@ =~= index_page_of(apprentice_name@, apprentice_handle@, views));
    string_of(&out)
}

/// A generated project page: the file it goes to and its HTML.
pub struct RenderedPage {
    pub file_name: String,
    pub html: String,
}

/// The generated site: a page per project, in order, and the index.
pub struct RenderedSite {
    pub pages: Vec<RenderedPage>,
    pub index_html: String,
}

/// The cards of the projects, in order.
pub open spec fn cards_of(projects: Seq<(Project, String)>) -> Seq<Seq<char>> {
    Seq::new(projects.len(), |i: int| project_card_of(projects[i].0@, projects[i].1@))
}

/// The pages and index of the portfolio of the given projects, each with the
/// text of its README.
pub fn render_site(apprentice_name: &str, apprentice_handle: &str, projects: &Vec<(Project, String)>) -> (site: RenderedSite)
    ensures
        site.pages@.len() == projects@.len(),
        forall|i: int| 0 <= i < projects@.len() ==> {
            &&& (#[trigger] site.pages@[i]).file_name@ == page_file_of(projects@[i].0.name@)
            &&& site.pages@[i].html@ == project_page_of(projects@[i].0@, projects@[i].1@)
        },
        site.index_html@ == index_page_of(apprentice_name@, apprentice_handle@, cards_of(projects@)),
{
    let mut pages: Vec<RenderedPage> = Vec::new();
    let mut cards: Vec<String> = Vec::new();
    let mut i: usize = 0;
    while i < projects.len()
        invariant
            i <= projects@.len(),
            pages@.len() == i,
            cards@.len() == i,
            forall|k: int| 0 <= k < i ==> {
                &&& (#[trigger] pages@[k]).file_name@ == page_file_of(projects@[k].0.name@)
                &&& pages@[k].html@ == project_page_of(projects@[k].0@, projects@[k].1@)
            },
            forall|k: int| 0 <= k < i ==> (#[trigger] cards@[k])@ == project_card_of(projects@[k].0@, projects@[k].1@),
        decreases projects@.len() - i,
    {
        let (project, readme) = &projects[i];
        let file_name = page_file_name(project.name.as_str());
        let html = render_project_page(project, readme.as_str());
        pages.push(RenderedPage { file_name, html });
        cards.push(render_project_card(project, readme.as_str()));
        i = i + 1;
    }
    assert(strings_view(cards@) =~= cards_of(projects@));
    let index_html = render_index(apprentice_name, apprentice_handle, &cards);
    RenderedSite { pages, index_html }
}

/// The name and handle shown on the portfolio: the configured ones, or
/// `Apprentice` and `apprentice` where there is no configuration.
pub fn apprentice_identity(config: Option<&GuildConfig>) -> (r: (String, String))
    ensures
        match config {
            Some(c) => r.0@ == c.user.name@ && r.1@ == c.user.handle@,
            None => r.0@ == "Apprentice"@ && r.1@ == "apprentice"@,
        },
{
    match config {
        Some(c) => (String::from_str(c.user.name.as_str()), String::from_str(c.user.handle.as_str())),
        None => (String::from_str("Apprentice"), String::from_str("apprentice")),
    }
}

} // verus!
