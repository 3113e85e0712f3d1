use vstd::prelude::*;

use crate::config::{guild_dir_of, join_path, joined, opt_chars, GuildConfig};
use crate::error::GuildError;
use crate::text::{
    char_is_alphanumeric, chars_of, contains_char, is_alphanumeric, lemma_trim_idempotent,
    lowercase, name_key, normalized, to_lowercase, trim, trimmed,
};

verus! {

/// Apprentice profile, stored in `~/.guild/data/profile.toml`.
#[derive(Debug, Clone)]
pub struct Profile {
    pub name: String,
    pub handle: String,
    pub joined: String,
}

/// Where a project stands.
#[derive(Debug, Clone, Copy, PartialEq, Eq, Structural)]
pub enum ProjectStatus {
    NotStarted,
    InProgress,
    UnderReview,
    Complete,
}

/// How hard a project is.
#[derive(Debug, Clone, Copy, PartialEq, Eq, Structural)]
pub enum Difficulty {
    Beginner,
    Intermediate,
    Advanced,
}

/// A registered project.
#[derive(Debug, Clone)]
pub struct Project {
    pub name: String,
    pub path: String,
    pub status: ProjectStatus,
    pub difficulty: Difficulty,
}

/// A project as a mathematical value.
pub struct ProjectView {
    pub name: Seq<char>,
    pub path: Seq<char>,
    pub status: ProjectStatus,
    pub difficulty: Difficulty,
}

impl View for Project {
    type V = ProjectView;

    open spec fn view(&self) -> ProjectView {
        ProjectView {
            name: self.name@,
            path: self.path@,
            status: self.status,
            difficulty: self.difficulty,
        }
    }
}

/// Project registry, stored in `~/.guild/data/projects.toml`.
#[derive(Debug, Clone)]
pub struct ProjectRegistry {
    pub projects: Vec<Project>,
}

impl View for ProjectRegistry {
    type V = Seq<ProjectView>;

    open spec fn view(&self) -> Seq<ProjectView> {
        self.projects@.map_values(|p: Project| p@)
    }
}

/// The data file `file` under `~/.guild/data/` for the home directory `home`.
pub open spec fn data_file_of(home: Option<Seq<char>>, file: Seq<char>) -> Seq<char> {
    joined(joined(guild_dir_of(home), "data"@), file)
}

/// The path of the data file `file` under `~/.guild/data/`.
fn data_file(home: Option<&str>, file: &str) -> (r: String)
    ensures
        r@ == data_file_of(opt_chars(home), file@),
{
    let dir = GuildConfig::guild_dir(home);
    let data = join_path(dir.as_str(), "data");
    join_path(data.as_str(), file)
}

/// A character allowed in a project name.
pub open spec fn valid_name_char(c: char) -> bool {
    is_alphanumeric(c) || c == ' ' || c == '-' || c == '_' || c == '.'
}

/// Every character of `name` is allowed in a project name.
pub open spec fn valid_project_name(name: Seq<char>) -> bool {
    forall|k: int| 0 <= k < name.len() ==> valid_name_char(#[trigger] name[k])
}

/// Some project of `projects` has a name whose key is `key`.
pub open spec fn project_key_taken(projects: Seq<ProjectView>, key: Seq<char>) -> bool {
    exists|i: int| 0 <= i < projects.len() && name_key(#[trigger] projects[i].name) == key
}

/// `i` is the first position in `projects` whose name has the key `key`.
pub open spec fn is_first_project_match(projects: Seq<ProjectView>, key: Seq<char>, i: int) -> bool {
    &&& 0 <= i < projects.len()
    &&& name_key(projects[i].name) == key
    &&& forall|j: int| 0 <= j < i ==> name_key(#[trigger] projects[j].name) != key
}

/// `add_project` accepts `p` into a registry holding `projects`.
pub open spec fn project_accepted(projects: Seq<ProjectView>, p: ProjectView) -> bool {
    &&& trimmed(p.name).len() > 0
    &&& valid_project_name(trimmed(p.name))
    &&& trimmed(p.path).len() > 0
    &&& !trimmed(p.path).contains('\0')
    &&& !project_key_taken(projects, name_key(p.name))
}

/// The project as `add_project` stores it: name and path trimmed.
pub open spec fn stored_project(p: ProjectView) -> ProjectView {
    ProjectView { name: trimmed(p.name), path: trimmed(p.path), status: p.status, difficulty: p.difficulty }
}

/// No two projects have names with the same key.
pub open spec fn project_names_distinct(projects: Seq<ProjectView>) -> bool {
    forall|i: int, j: int|
        0 <= i < projects.len() && 0 <= j < projects.len() && i != j
            ==> name_key(#[trigger] projects[i].name) != name_key(#[trigger] projects[j].name)
}

/// A stored name has the same key as the name it was stored from.
pub proof fn lemma_stored_name_key(p: ProjectView)
    ensures
        name_key(stored_project(p).name) == name_key(p.name),
{
    lemma_trim_idempotent(p.name);
}

/// Once `add_project` has accepted `p`, looking it up by the name it was given
/// finds the new entry (it is the first, and only, project with that key).
pub proof fn lemma_added_project_is_found(projects: Seq<ProjectView>, p: ProjectView)
    requires
        project_accepted(projects, p),
    ensures
        is_first_project_match(projects.push(stored_project(p)), name_key(p.name), projects.len() as int),
        !project_accepted(projects.push(stored_project(p)), p),
{
    lemma_stored_name_key(p);
    let after = projects.push(stored_project(p));
    assert forall|j: int| 0 <= j < projects.len() implies name_key(#[trigger] after[j].name) != name_key(p.name) by {
        assert(after[j] == projects[j]);
    }
    assert(name_key(after[projects.len() as int].name) == name_key(p.name));
}

/// `add_project` keeps the registry free of two names with the same key.
pub proof fn lemma_add_keeps_names_distinct(projects: Seq<ProjectView>, p: ProjectView)
    requires
        project_names_distinct(projects),
        project_accepted(projects, p),
    ensures
        project_names_distinct(projects.push(stored_project(p))),
{
    lemma_stored_name_key(p);
    let after = projects.push(stored_project(p));
    assert forall|i: int, j: int|
        0 <= i < after.len() && 0 <= j < after.len() && i != j
        implies name_key(#[trigger] after[i].name) != name_key(#[trigger] after[j].name) by {
        if i == projects.len() {
            assert(after[j] == projects[j]);
        } else if j == projects.len() {
            assert(after[i] == projects[i]);
        } else {
            assert(after[i] == projects[i]);
            assert(after[j] == projects[j]);
        }
    }
}

/// Every character of `name` is allowed in a project name.
fn all_name_chars_valid(name: &str) -> (r: bool)
    ensures
        r == valid_project_name(name@),
{
    let chars = chars_of(name);
    let mut i: usize = 0;
    while i < chars.len()
        invariant
            i <= chars@.len(),
            chars@ == name@,
            forall|k: int| 0 <= k < i ==> valid_name_char(#[trigger] chars@[k]),
        decreases chars@.len() - i,
    {
        let c = chars[i];
        if !(char_is_alphanumeric(c) || c == ' ' || c == '-' || c == '_' || c == '.') {
            assert(!valid_name_char(name@[i as int]));
            return false;
        }
        i = i + 1;
    }
    true
}

impl ProjectRegistry {
    /// Where the registry is stored: `~/.guild/data/projects.toml`.
    pub fn path(home: Option<&str>) -> (r: String)
        ensures
            r@ == data_file_of(opt_chars(home), "projects.toml"@),
    {
        data_file(home, "projects.toml")
    }

    /// The position of the first project whose name has the key `key`.
    fn position_of_key(&self, key: &String) -> (r: Option<usize>)
        ensures
            match r {
                Some(i) => is_first_project_match(self@, key@, i as int),
                None => !project_key_taken(self@, key@),
            },
    {
        let mut i: usize = 0;
        while i < self.projects.len()
            invariant
                i <= self.projects@.len(),
                forall|j: int| 0 <= j < i ==> name_key(#[trigger] self@[j].name) != key@,
            decreases self.projects@.len() - i,
        {
            let k = normalized(self.projects[i].name.as_str());
            if k == *key {
                return Some(i);
            }
            i = i + 1;
        }
        None
    }

    /// Add a project to the registry. Fails if a project with the same name
    /// already exists (case-insensitive). Trims names and paths, validating
    /// character sets.
    pub fn add_project(&mut self, project: Project) -> (r: Result<(), GuildError>)
        ensures
            ({
                let name = trimmed(project@.name);
                let path = trimmed(project@.path);
                if name.len() == 0 {
                    r matches Err(GuildError::InvalidProjectProperties(m))
                        && m@ == "project name cannot be empty"@
                } else if !valid_project_name(name) {
                    r matches Err(GuildError::InvalidProjectProperties(m))
                        && m@ == "project name can only contain alphanumeric characters, spaces, hyphens, underscores, and dots"@
                } else if path.len() == 0 {
                    r matches Err(GuildError::InvalidProjectProperties(m))
                        && m@ == "project path cannot be empty"@
                } else if path.contains('\0') {
                    r matches Err(GuildError::InvalidProjectProperties(m))
                        && m@ == "project path cannot contain null bytes"@
                } else if project_key_taken(old(self)@, name_key(project@.name)) {
                    r matches Err(GuildError::DuplicateProject(n)) && n@ == name
                } else {
                    r is Ok
                }
            }),
            r is Ok <==> project_accepted(old(self)@, project@),
            r is Ok ==> final(self)@ == old(self)@.push(stored_project(project@)),
            r is Ok ==> final(self).projects@.drop_last() == old(self).projects@,
            r is Err ==> final(self).projects@ == old(self).projects@,
    {
        let ghost given = project@;
        let mut project = project;
        let trimmed_name = trim(project.name.as_str());
        if trimmed_name.as_str().is_empty() {
            return Err(GuildError::InvalidProjectProperties(
                String::from_str("project name cannot be empty"),
            ));
        }
        if !all_name_chars_valid(trimmed_name.as_str()) {
            return Err(GuildError::InvalidProjectProperties(
                String::from_str(
                    "project name can only contain alphanumeric characters, spaces, hyphens, underscores, and dots",
                ),
            ));
        }
        let trimmed_path = trim(project.path.as_str());
        if trimmed_path.as_str().is_empty() {
            return Err(GuildError::InvalidProjectProperties(
                String::from_str("project path cannot be empty"),
            ));
        }
        if contains_char(trimmed_path.as_str(), '\0') {
            return Err(GuildError::InvalidProjectProperties(
                String::from_str("project path cannot contain null bytes"),
            ));
        }
        let name_lower = to_lowercase(trimmed_name.as_str());
        if self.position_of_key(&name_lower).is_some() {
            return Err(GuildError::DuplicateProject(trimmed_name));
        }
        project.name = trimmed_name;
        project.path = trimmed_path;
        self.projects.push(project);
        proof {
            assert(self.projects@.drop_last() =~= old(self).projects@);
            assert(self@ =~= old(self)@.push(stored_project(given)));
        }
        Ok(())
    }

    /// Look up a project by name (case-insensitive, trimmed).
    pub fn find_project(&self, name: &str) -> (r: Option<&Project>)
        ensures
            match r {
                Some(p) => exists|i: int|
                    is_first_project_match(self@, name_key(name@), i) && *p == self.projects@[i],
                None => !project_key_taken(self@, name_key(name@)),
            },
    {
        let key = normalized(name);
        match self.position_of_key(&key) {
            Some(i) => Some(&self.projects[i]),
            None => None,
        }
    }
}


/// One step of the curriculum.
#[derive(Debug, Clone)]
pub struct Checkpoint {
    pub id: String,
    pub title: String,
    pub completed: bool,
}

/// A checkpoint as a mathematical value.
pub struct CheckpointView {
    pub id: Seq<char>,
    pub title: Seq<char>,
    pub completed: bool,
}

impl View for Checkpoint {
    type V = CheckpointView;

    open spec fn view(&self) -> CheckpointView {
        CheckpointView { id: self.id@, title: self.title@, completed: self.completed }
    }
}

/// Curriculum progress, stored in `~/.guild/data/progress.toml`.
#[derive(Debug, Clone)]
pub struct Progress {
    pub checkpoints: Vec<Checkpoint>,
}

impl View for Progress {
    type V = Seq<CheckpointView>;

    open spec fn view(&self) -> Seq<CheckpointView> {
        self.checkpoints@.map_values(|c: Checkpoint| c@)
    }
}

/// `i` is the first position in `checkpoints` whose ID has the key `key`.
pub open spec fn is_first_checkpoint_match(checkpoints: Seq<CheckpointView>, key: Seq<char>, i: int) -> bool {
    &&& 0 <= i < checkpoints.len()
    &&& name_key(checkpoints[i].id) == key
    &&& forall|j: int| 0 <= j < i ==> name_key(#[trigger] checkpoints[j].id) != key
}

/// Some checkpoint of `checkpoints` has an ID whose key is `key`.
pub open spec fn checkpoint_key_known(checkpoints: Seq<CheckpointView>, key: Seq<char>) -> bool {
    exists|i: int| 0 <= i < checkpoints.len() && name_key(#[trigger] checkpoints[i].id) == key
}

/// `checkpoints` with the one at `i` marked completed.
pub open spec fn completed_at(checkpoints: Seq<CheckpointView>, i: int) -> Seq<CheckpointView> {
    checkpoints.update(i, CheckpointView { completed: true, ..checkpoints[i] })
}

/// `i` is the first position in `checkpoints` that is not completed.
pub open spec fn is_first_incomplete(checkpoints: Seq<CheckpointView>, i: int) -> bool {
    &&& 0 <= i < checkpoints.len()
    &&& !checkpoints[i].completed
    &&& forall|j: int| 0 <= j < i ==> (#[trigger] checkpoints[j]).completed
}

/// Completing a checkpoint a second time changes nothing: the same checkpoint
/// is found again, and it is completed already.
pub proof fn lemma_complete_idempotent(checkpoints: Seq<CheckpointView>, key: Seq<char>, i: int)
    requires
        is_first_checkpoint_match(checkpoints, key, i),
    ensures
        is_first_checkpoint_match(completed_at(checkpoints, i), key, i),
        completed_at(completed_at(checkpoints, i), i) == completed_at(checkpoints, i),
{
    let after = completed_at(checkpoints, i);
    assert forall|j: int| 0 <= j < i implies name_key(#[trigger] after[j].id) != key by {
        assert(after[j] == checkpoints[j]);
    }
    assert(completed_at(after, i) =~= after);
}

/// Completing the next incomplete checkpoint moves the next incomplete one
/// further on: whatever comes next lies after it.
pub proof fn lemma_completing_next_advances(checkpoints: Seq<CheckpointView>, i: int, j: int)
    requires
        is_first_incomplete(checkpoints, i),
        is_first_incomplete(completed_at(checkpoints, i), j),
    ensures
        j > i,
{
    let after = completed_at(checkpoints, i);
    if j < i {
        assert(after[j] == checkpoints[j]);
        assert(checkpoints[j].completed);
    }
}

impl Progress {
    /// Where the progress is stored: `~/.guild/data/progress.toml`.
    pub fn path(home: Option<&str>) -> (r: String)
        ensures
            r@ == data_file_of(opt_chars(home), "progress.toml"@),
    {
        data_file(home, "progress.toml")
    }

    /// Mark a checkpoint as completed (ID compared trimmed and case-insensitively).
    /// Fails if no checkpoint has that ID.
    pub fn complete_checkpoint(&mut self, id: &str) -> (r: Result<(), GuildError>)
        ensures
            match r {
                Ok(()) => exists|i: int|
                    is_first_checkpoint_match(old(self)@, name_key(id@), i)
                        && final(self)@ == completed_at(old(self)@, i),
                Err(e) => e matches GuildError::CheckpointNotFound(s) && s@ == id@
                    && final(self).checkpoints@ == old(self).checkpoints@,
            },
            r is Ok <==> checkpoint_key_known(old(self)@, name_key(id@)),
    {
        let key = normalized(id);
        let mut i: usize = 0;
        while i < self.checkpoints.len()
            invariant
                i <= self.checkpoints@.len(),
                key@ == name_key(id@),
                self.checkpoints@ == old(self).checkpoints@,
                forall|j: int| 0 <= j < i ==> name_key(#[trigger] self@[j].id) != key@,
            decreases self.checkpoints@.len() - i,
        {
            let k = normalized(self.checkpoints[i].id.as_str());
            if k == key {
                let ghost before = self@;
                assert(before == old(self)@);
                assert(is_first_checkpoint_match(before, key@, i as int));
                self.checkpoints[i].completed = true;
                proof {
                    assert(self@ =~= completed_at(before, i as int));
                }
                return Ok(());
            }
            i = i + 1;
        }
        assert(self@ == old(self)@);
        Err(GuildError::CheckpointNotFound(String::from_str(id)))
    }

    /// The first incomplete checkpoint in the curriculum sequence.
    pub fn next_incomplete(&self) -> (r: Option<&Checkpoint>)
        ensures
            match r {
                Some(c) => exists|i: int| is_first_incomplete(self@, i) && *c == self.checkpoints@[i],
                None => forall|i: int| 0 <= i < self@.len() ==> (#[trigger] self@[i]).completed,
            },
    {
        let mut i: usize = 0;
        while i < self.checkpoints.len()
            invariant
                i <= self.checkpoints@.len(),
                forall|j: int| 0 <= j < i ==> (#[trigger] self@[j]).completed,
            decreases self.checkpoints@.len() - i,
        {
            if !self.checkpoints[i].completed {
                assert(is_first_incomplete(self@, i as int));
                return Some(&self.checkpoints[i]);
            }
            i = i + 1;
        }
        None
    }
}


/// Where a review round stands.
#[derive(Debug, Clone, Copy, PartialEq, Eq, Structural)]
pub enum ReviewStatus {
    Submitted,
    InReview,
    Returned,
    Accepted,
}

/// One round of review of a project.
#[derive(Debug, Clone)]
pub struct ReviewRound {
    pub project: String,
    pub round: u32,
    pub status: ReviewStatus,
    pub feedback_ref: Option<String>,
}

/// A review round as a mathematical value.
pub struct ReviewRoundView {
    pub project: Seq<char>,
    pub round: u32,
    pub status: ReviewStatus,
    pub feedback_ref: Option<Seq<char>>,
}

impl View for ReviewRound {
    type V = ReviewRoundView;

    open spec fn view(&self) -> ReviewRoundView {
        ReviewRoundView {
            project: self.project@,
            round: self.round,
            status: self.status,
            feedback_ref: match self.feedback_ref {
                Some(f) => Some(f@),
                None => None,
            },
        }
    }
}

/// Review history, stored in `~/.guild/data/reviews.toml`.
#[derive(Debug, Clone)]
pub struct ReviewHistory {
    pub reviews: Vec<ReviewRound>,
}

impl View for ReviewHistory {
    type V = Seq<ReviewRoundView>;

    open spec fn view(&self) -> Seq<ReviewRoundView> {
        self.reviews@.map_values(|r: ReviewRound| r@)
    }
}

/// The review at position `i` belongs to the project whose name has the key `key`.
pub open spec fn review_of(reviews: Seq<ReviewRoundView>, key: Seq<char>, i: int) -> bool {
    0 <= i < reviews.len() && name_key(reviews[i].project) == key
}

/// Some review of the project with name key `key` has the number `round`.
pub open spec fn round_taken(reviews: Seq<ReviewRoundView>, key: Seq<char>, round: u32) -> bool {
    exists|i: int| #[trigger] review_of(reviews, key, i) && reviews[i].round == round
}

/// `add_round` accepts `r` into a history holding `reviews`.
pub open spec fn round_accepted(reviews: Seq<ReviewRoundView>, r: ReviewRoundView) -> bool {
    &&& trimmed(r.project).len() > 0
    &&& r.round > 0
    &&& !round_taken(reviews, name_key(r.project), r.round)
}

/// The round as `add_round` stores it: project name trimmed.
pub open spec fn stored_round(r: ReviewRoundView) -> ReviewRoundView {
    ReviewRoundView { project: trimmed(r.project), ..r }
}

/// `i` is the latest round of the project with name key `key`: it has the
/// greatest number among that project's rounds, and is the last one to have it.
pub open spec fn is_latest_round(reviews: Seq<ReviewRoundView>, key: Seq<char>, i: int) -> bool {
    &&& review_of(reviews, key, i)
    &&& forall|j: int| #[trigger] review_of(reviews, key, j) ==> reviews[j].round <= reviews[i].round
    &&& forall|j: int| i < j && #[trigger] review_of(reviews, key, j) ==> reviews[j].round < reviews[i].round
}

/// No project has two rounds with the same number.
pub open spec fn rounds_distinct(reviews: Seq<ReviewRoundView>) -> bool {
    forall|i: int, j: int|
        0 <= i < reviews.len() && 0 <= j < reviews.len() && i != j
            && name_key(#[trigger] reviews[i].project) == name_key(#[trigger] reviews[j].project)
            ==> reviews[i].round != reviews[j].round
}

impl ReviewHistory {
    /// Where the review history is stored: `~/.guild/data/reviews.toml`.
    pub fn path(home: Option<&str>) -> (r: String)
        ensures
            r@ == data_file_of(opt_chars(home), "reviews.toml"@),
    {
        data_file(home, "reviews.toml")
    }

    /// Add a review round to the history. Fails if the project name is empty,
    /// the round number is 0, or the project already has a round with that number.
    pub fn add_round(&mut self, round: ReviewRound) -> (r: Result<(), GuildError>)
        ensures
            ({
                let project = trimmed(round@.project);
                if project.len() == 0 {
                    r matches Err(GuildError::InvalidReviewRound(m))
                        && m@ == "project name cannot be empty"@
                } else if round.round == 0 {
                    r matches Err(GuildError::InvalidReviewRound(m))
                        && m@ == "review round number must be greater than 0"@
                } else if round_taken(old(self)@, name_key(round@.project), round.round) {
                    r matches Err(GuildError::DuplicateReviewRound(p, n)) && p@ == project && n == round.round
                } else {
                    r is Ok
                }
            }),
            r is Ok <==> round_accepted(old(self)@, round@),
            r is Ok ==> final(self)@ == old(self)@.push(stored_round(round@)),
            r is Ok ==> final(self).reviews@.drop_last() == old(self).reviews@,
            r is Err ==> final(self).reviews@ == old(self).reviews@,
    {
        let ghost given = round@;
        let trimmed_project = trim(round.project.as_str());
        if trimmed_project.as_str().is_empty() {
            return Err(GuildError::InvalidReviewRound(String::from_str("project name cannot be empty")));
        }
        if round.round == 0 {
            return Err(GuildError::InvalidReviewRound(
                String::from_str("review round number must be greater than 0"),
            ));
        }
        let project_lower = to_lowercase(trimmed_project.as_str());
        let mut i: usize = 0;
        while i < self.reviews.len()
            invariant
                i <= self.reviews@.len(),
                self.reviews@ == old(self).reviews@,
                project_lower@ == name_key(given.project),
                trimmed_project@ == trimmed(given.project),
                trimmed_project@.len() > 0,
                round@ == given,
                given.round > 0,
                forall|j: int| 0 <= j < i && #[trigger] review_of(self@, project_lower@, j)
                    ==> self@[j].round != given.round,
            decreases self.reviews@.len() - i,
        {
            let k = normalized(self.reviews[i].project.as_str());
            if k == project_lower && self.reviews[i].round == round.round {
                assert(self@[i as int].round == given.round);
                assert(review_of(old(self)@, project_lower@, i as int));
                assert(round_taken(old(self)@, name_key(given.project), given.round));
                return Err(GuildError::DuplicateReviewRound(trimmed_project, round.round));
            }
            i = i + 1;
        }
        let mut round = round;
        round.project = trimmed_project;
        self.reviews.push(round);
        proof {
            assert(self.reviews@.drop_last() =~= old(self).reviews@);
            assert(self@ =~= old(self)@.push(stored_round(given)));
        }
        Ok(())
    }

    /// The latest review round of a project (name compared trimmed and case-insensitively).
    #[verifier::rlimit(40)]
    pub fn latest_round(&self, project: &str) -> (r: Option<&ReviewRound>)
        ensures
            match r {
                Some(rr) => exists|i: int|
                    is_latest_round(self@, name_key(project@), i) && *rr == self.reviews@[i],
                None => forall|i: int| !(#[trigger] review_of(self@, name_key(project@), i)),
            },
    {
        let key = normalized(project);
        let mut best: Option<usize> = None;
        let mut i: usize = 0;
        while i < self.reviews.len()
            invariant
                i <= self.reviews@.len(),
                key@ == name_key(project@),
                match best {
                    Some(b) => b < i && is_latest_round(self@.take(i as int), key@, b as int),
                    None => forall|j: int| !(#[trigger] review_of(self@.take(i as int), key@, j)),
                },
            decreases self.reviews@.len() - i,
        {
            let ghost prefix = self@.take(i as int);
            let ghost next = self@.take(i + 1);
            assert(next =~= prefix.push(self@[i as int]));
            assert forall|j: int| 0 <= j < i implies #[trigger] review_of(next, key@, j) == review_of(prefix, key@, j) by {
                assert(next[j] == prefix[j]);
            }
            let k = normalized(self.reviews[i].project.as_str());
            if k == key {
                let better = match best {
                    Some(b) => self.reviews[i].round >= self.reviews[b].round,
                    None => true,
                };
                if better {
                    best = Some(i);
                }
            }
            i = i + 1;
        }
        assert(self@.take(self@.len() as int) =~= self@);
        match best {
            Some(b) => Some(&self.reviews[b]),
            None => None,
        }
    }
}

/// After `add_round` accepts `r`, the latest round of its project has a number
/// at least `r.round`.
pub proof fn lemma_added_round_bounds_latest(reviews: Seq<ReviewRoundView>, r: ReviewRoundView, i: int)
    requires
        round_accepted(reviews, r),
        is_latest_round(reviews.push(stored_round(r)), name_key(r.project), i),
    ensures
        reviews.push(stored_round(r))[i].round >= r.round,
{
    lemma_trim_idempotent(r.project);
    let after = reviews.push(stored_round(r));
    assert(review_of(after, name_key(r.project), reviews.len() as int));
}

/// After `add_round` accepts `r`, its project has a latest round.
pub proof fn lemma_added_round_has_latest(reviews: Seq<ReviewRoundView>, r: ReviewRoundView)
    requires
        round_accepted(reviews, r),
    ensures
        exists|i: int| is_latest_round(reviews.push(stored_round(r)), name_key(r.project), i),
{
    lemma_trim_idempotent(r.project);
    let after = reviews.push(stored_round(r));
    let key = name_key(r.project);
    assert(review_of(after, key, reviews.len() as int));
    lemma_latest_exists(after, key, reviews.len() as int);
}

/// A project with at least one round has a latest round.
pub proof fn lemma_latest_exists(reviews: Seq<ReviewRoundView>, key: Seq<char>, w: int)
    requires
        review_of(reviews, key, w),
    ensures
        exists|i: int| is_latest_round(reviews, key, i),
    decreases reviews.len(),
{
    let n = reviews.len() as int;
    let last = reviews[n - 1];
    if w == n - 1 && forall|j: int| #[trigger] review_of(reviews, key, j) && j < n - 1 ==> reviews[j].round <= last.round {
        assert(is_latest_round(reviews, key, n - 1));
    } else {
        let prefix = reviews.drop_last();
        let w2: int = if w < n - 1 { w } else {
            choose|j: int| #[trigger] review_of(reviews, key, j) && j < n - 1 && reviews[j].round > last.round
        };
        assert(prefix[w2] == reviews[w2]);
        assert(review_of(prefix, key, w2));
        lemma_latest_exists(prefix, key, w2);
        let i = choose|i: int| is_latest_round(prefix, key, i);
        assert forall|j: int| 0 <= j < n - 1 implies #[trigger] review_of(reviews, key, j) == review_of(prefix, key, j) by {
            assert(prefix[j] == reviews[j]);
        }
        if review_of(reviews, key, n - 1) && reviews[n - 1].round >= reviews[i].round {
            assert(is_latest_round(reviews, key, n - 1));
        } else {
            assert(reviews[i] == prefix[i]);
            assert(is_latest_round(reviews, key, i));
        }
    }
}

/// `add_round` keeps every project free of two rounds with the same number.
pub proof fn lemma_add_keeps_rounds_distinct(reviews: Seq<ReviewRoundView>, r: ReviewRoundView)
    requires
        rounds_distinct(reviews),
        round_accepted(reviews, r),
    ensures
        rounds_distinct(reviews.push(stored_round(r))),
{
    lemma_trim_idempotent(r.project);
    let after = reviews.push(stored_round(r));
    let n = reviews.len() as int;
    assert forall|i: int, j: int|
        0 <= i < after.len() && 0 <= j < after.len() && i != j
            && name_key(#[trigger] after[i].project) == name_key(#[trigger] after[j].project)
        implies after[i].round != after[j].round by {
        if i == n {
            assert(after[j] == reviews[j]);
            assert(review_of(reviews, name_key(r.project), j));
        } else if j == n {
            assert(after[i] == reviews[i]);
            assert(review_of(reviews, name_key(r.project), i));
        } else {
            assert(after[i] == reviews[i]);
            assert(after[j] == reviews[j]);
        }
    }
}

/// What `add_project` accepts, written out: a non-empty trimmed name made only of
/// alphanumeric characters, spaces, `-`, `_` and `.`; a non-empty trimmed path
/// without NUL; and no registered project whose trimmed, lowercased name equals
/// the new one's.
pub proof fn lemma_project_acceptance(projects: Seq<ProjectView>, p: ProjectView)
    ensures
        project_accepted(projects, p) <==> {
            &&& trimmed(p.name).len() > 0
            &&& forall|k: int| 0 <= k < trimmed(p.name).len() ==> {
                let c = #[trigger] trimmed(p.name)[k];
                is_alphanumeric(c) || c == ' ' || c == '-' || c == '_' || c == '.'
            }
            &&& trimmed(p.path).len() > 0
            &&& forall|k: int| 0 <= k < trimmed(p.path).len() ==> #[trigger] trimmed(p.path)[k] != '\0'
            &&& forall|i: int| 0 <= i < projects.len()
                ==> lowercase(trimmed(#[trigger] projects[i].name)) != lowercase(trimmed(p.name))
        },
{
    if trimmed(p.path).contains('\0') {
        let k = choose|k: int| 0 <= k < trimmed(p.path).len() && trimmed(p.path)[k] == '\0';
        assert(trimmed(p.path)[k] == '\0');
    }
    if project_key_taken(projects, name_key(p.name)) {
        let i = choose|i: int| 0 <= i < projects.len() && name_key(#[trigger] projects[i].name) == name_key(p.name);
        assert(lowercase(trimmed(projects[i].name)) == lowercase(trimmed(p.name)));
    }
}

/// A name holding punctuation other than `-`, `_` and `.` (such as an
/// apostrophe, a slash or a colon) is never accepted.
pub proof fn lemma_punctuation_refused(projects: Seq<ProjectView>, p: ProjectView, k: int)
    requires
        0 <= k < trimmed(p.name).len(),
        trimmed(p.name)[k] <= '\u{7f}',
        !('a' <= trimmed(p.name)[k] <= 'z'),
        !('A' <= trimmed(p.name)[k] <= 'Z'),
        !('0' <= trimmed(p.name)[k] <= '9'),
        trimmed(p.name)[k] != ' ',
        trimmed(p.name)[k] != '-',
        trimmed(p.name)[k] != '_',
        trimmed(p.name)[k] != '.',
    ensures
        !project_accepted(projects, p),
{
    lemma_project_acceptance(projects, p);
}

/// What `add_round` accepts, written out: a non-empty trimmed project name, a
/// round number above 0, and no review of the same project (trimmed,
/// lowercased name) that has the same number. Rounds of other projects never
/// stand in the way.
pub proof fn lemma_round_acceptance(reviews: Seq<ReviewRoundView>, r: ReviewRoundView)
    ensures
        round_accepted(reviews, r) <==> {
            &&& trimmed(r.project).len() > 0
            &&& r.round > 0
            &&& forall|i: int| 0 <= i < reviews.len()
                && lowercase(trimmed(#[trigger] reviews[i].project)) == lowercase(trimmed(r.project))
                ==> reviews[i].round != r.round
        },
{
    if round_taken(reviews, name_key(r.project), r.round) {
        let i = choose|i: int| #[trigger] review_of(reviews, name_key(r.project), i) && reviews[i].round == r.round;
        assert(lowercase(trimmed(reviews[i].project)) == lowercase(trimmed(r.project)));
    }
    if !round_taken(reviews, name_key(r.project), r.round) {
        assert forall|i: int| 0 <= i < reviews.len()
            && lowercase(trimmed(#[trigger] reviews[i].project)) == lowercase(trimmed(r.project))
            implies reviews[i].round != r.round by {
            assert(review_of(reviews, name_key(r.project), i));
        }
    }
}

/// A round of a project that has no reviews yet is accepted whenever its name
/// is not blank and its number is above 0, whatever numbers other projects use.
pub proof fn lemma_first_round_of_project_accepted(reviews: Seq<ReviewRoundView>, r: ReviewRoundView)
    requires
        trimmed(r.project).len() > 0,
        r.round > 0,
        forall|i: int| 0 <= i < reviews.len()
            ==> lowercase(trimmed(#[trigger] reviews[i].project)) != lowercase(trimmed(r.project)),
    ensures
        round_accepted(reviews, r),
{
    lemma_round_acceptance(reviews, r);
}

} // verus!
