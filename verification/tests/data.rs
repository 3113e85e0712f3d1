use guild_core::data::{
    Checkpoint, Difficulty, Progress, Project, ProjectRegistry, ProjectStatus, ReviewHistory,
    ReviewRound, ReviewStatus,
};
use guild_core::error::GuildError;

fn sample_project(name: &str, path: &str) -> Project {
    Project {
        name: name.to_string(),
        path: path.to_string(),
        status: ProjectStatus::NotStarted,
        difficulty: Difficulty::Beginner,
    }
}

fn sample_round(project: &str, round: u32) -> ReviewRound {
    ReviewRound {
        project: project.to_string(),
        round,
        status: ReviewStatus::Submitted,
        feedback_ref: None,
    }
}

fn sample_checkpoint(id: &str, title: &str, completed: bool) -> Checkpoint {
    Checkpoint {
        id: id.to_string(),
        title: title.to_string(),
        completed,
    }
}

#[test]
fn test_add_project_success_and_trimming() {
    let mut registry = ProjectRegistry { projects: vec![] };

    // Trims name and path
    registry
        .add_project(sample_project("  My-Project.1  ", "  /some/path  "))
        .unwrap();

    assert_eq!(registry.projects.len(), 1);
    assert_eq!(registry.projects[0].name, "My-Project.1");
    assert_eq!(registry.projects[0].path, "/some/path");
}

#[test]
fn test_add_project_duplicate_fails_case_insensitively() {
    let mut registry = ProjectRegistry { projects: vec![] };
    registry
        .add_project(sample_project("My-Project", "/path1"))
        .unwrap();

    // Exact duplicate
    let res1 = registry.add_project(sample_project("My-Project", "/path2"));
    assert!(res1.is_err());
    match res1.unwrap_err() {
        GuildError::DuplicateProject(name) => assert_eq!(name, "My-Project"),
        other => panic!("expected DuplicateProject, got: {:?}", other),
    }

    // Case-insensitive duplicate
    let res2 = registry.add_project(sample_project("my-project", "/path3"));
    assert!(res2.is_err());
    match res2.unwrap_err() {
        GuildError::DuplicateProject(name) => assert_eq!(name, "my-project"),
        other => panic!("expected DuplicateProject, got: {:?}", other),
    }
}

#[test]
fn test_add_project_invalid_properties() {
    let mut registry = ProjectRegistry { projects: vec![] };

    // Empty name
    let res_empty_name = registry.add_project(sample_project("   ", "/path"));
    assert!(res_empty_name.is_err());
    match res_empty_name.unwrap_err() {
        GuildError::InvalidProjectProperties(msg) => assert!(msg.contains("name")),
        other => panic!("expected InvalidProjectProperties, got: {:?}", other),
    }

    // Empty path
    let res_empty_path = registry.add_project(sample_project("Project-A", "   "));
    assert!(res_empty_path.is_err());
    match res_empty_path.unwrap_err() {
        GuildError::InvalidProjectProperties(msg) => assert!(msg.contains("path")),
        other => panic!("expected InvalidProjectProperties, got: {:?}", other),
    }

    // Invalid characters in name (slash /)
    let res_invalid_char = registry.add_project(sample_project("Project/A", "/path"));
    assert!(res_invalid_char.is_err());
    match res_invalid_char.unwrap_err() {
        GuildError::InvalidProjectProperties(msg) => assert!(msg.contains("alphanumeric")),
        other => panic!("expected InvalidProjectProperties, got: {:?}", other),
    }

    // Path containing null bytes
    let res_null_bytes = registry.add_project(sample_project("Project-A", "/path\0with\0nulls"));
    assert!(res_null_bytes.is_err());
    match res_null_bytes.unwrap_err() {
        GuildError::InvalidProjectProperties(msg) => assert!(msg.contains("null")),
        other => panic!("expected InvalidProjectProperties, got: {:?}", other),
    }
}

#[test]
fn test_find_project() {
    let mut registry = ProjectRegistry { projects: vec![] };
    registry
        .add_project(sample_project("Project-A", "/path-a"))
        .unwrap();

    // Exact match
    assert!(registry.find_project("Project-A").is_some());
    // Case insensitive match
    assert!(registry.find_project("project-a").is_some());
    // Trimmed search
    assert!(registry.find_project("  project-a  ").is_some());
    // Non-existent search
    assert!(registry.find_project("Project-B").is_none());
}

#[test]
fn test_add_round_success_and_trimming() {
    let mut history = ReviewHistory { reviews: vec![] };
    history.add_round(sample_round("  my-project  ", 1)).unwrap();

    assert_eq!(history.reviews.len(), 1);
    assert_eq!(history.reviews[0].project, "my-project");
}

#[test]
fn test_add_round_duplicate_fails() {
    let mut history = ReviewHistory { reviews: vec![] };
    history.add_round(sample_round("Project-A", 1)).unwrap();

    // Exact match duplicate
    let res1 = history.add_round(sample_round("Project-A", 1));
    assert!(res1.is_err());
    match res1.unwrap_err() {
        GuildError::DuplicateReviewRound(project, round) => {
            assert_eq!(project, "Project-A");
            assert_eq!(round, 1);
        }
        other => panic!("expected DuplicateReviewRound, got: {:?}", other),
    }

    // Case-insensitive duplicate
    let res2 = history.add_round(sample_round("project-a", 1));
    assert!(res2.is_err());
    match res2.unwrap_err() {
        GuildError::DuplicateReviewRound(project, round) => {
            assert_eq!(project, "project-a");
            assert_eq!(round, 1);
        }
        other => panic!("expected DuplicateReviewRound, got: {:?}", other),
    }

    // Different round for same project succeeds
    history.add_round(sample_round("Project-A", 2)).unwrap();
    assert_eq!(history.reviews.len(), 2);
}

#[test]
fn test_add_round_invalid_properties() {
    let mut history = ReviewHistory { reviews: vec![] };

    // Empty project name
    let res_empty = history.add_round(sample_round("   ", 1));
    assert!(res_empty.is_err());
    match res_empty.unwrap_err() {
        GuildError::InvalidReviewRound(msg) => assert!(msg.contains("empty")),
        other => panic!("expected InvalidReviewRound, got: {:?}", other),
    }

    // Round = 0
    let res_zero = history.add_round(sample_round("Project-A", 0));
    assert!(res_zero.is_err());
    match res_zero.unwrap_err() {
        GuildError::InvalidReviewRound(msg) => assert!(msg.contains("greater than 0")),
        other => panic!("expected InvalidReviewRound, got: {:?}", other),
    }
}

#[test]
fn test_latest_round_out_of_order() {
    let mut history = ReviewHistory { reviews: vec![] };

    // Add rounds out of order
    history.add_round(sample_round("Project-A", 2)).unwrap();
    history.add_round(sample_round("Project-A", 1)).unwrap();
    history.add_round(sample_round("Project-A", 3)).unwrap();

    // Add rounds for another project to ensure filtering works
    history.add_round(sample_round("Project-B", 5)).unwrap();

    let latest_a = history.latest_round("project-a").unwrap();
    assert_eq!(latest_a.round, 3);

    let latest_b = history.latest_round("  PROJECT-B  ").unwrap();
    assert_eq!(latest_b.round, 5);

    assert!(history.latest_round("nonexistent").is_none());
}

#[test]
fn test_complete_checkpoint_success_case_insensitive() {
    let mut progress = Progress {
        checkpoints: vec![
            sample_checkpoint("checkpoint-1", "Title 1", false),
            sample_checkpoint("checkpoint-2", "Title 2", false),
        ],
    };

    // Exact match
    progress.complete_checkpoint("checkpoint-1").unwrap();
    assert!(progress.checkpoints[0].completed);

    // Case-insensitive & trimmed match
    progress.complete_checkpoint("  CHECKPOINT-2  ").unwrap();
    assert!(progress.checkpoints[1].completed);
}

#[test]
fn test_complete_checkpoint_not_found() {
    let mut progress = Progress {
        checkpoints: vec![sample_checkpoint("checkpoint-1", "Title 1", false)],
    };

    let res = progress.complete_checkpoint("nonexistent");
    assert!(res.is_err());
    match res.unwrap_err() {
        GuildError::CheckpointNotFound(id) => assert_eq!(id, "nonexistent"),
        other => panic!("expected CheckpointNotFound, got: {:?}", other),
    }
}

#[test]
fn test_next_incomplete() {
    let mut progress = Progress {
        checkpoints: vec![
            sample_checkpoint("checkpoint-1", "Title 1", true),
            sample_checkpoint("checkpoint-2", "Title 2", false),
            sample_checkpoint("checkpoint-3", "Title 3", false),
        ],
    };

    // First incomplete is checkpoint-2
    let next = progress.next_incomplete().unwrap();
    assert_eq!(next.id, "checkpoint-2");

    // Complete checkpoint-2
    progress.complete_checkpoint("checkpoint-2").unwrap();

    // First incomplete is now checkpoint-3
    let next = progress.next_incomplete().unwrap();
    assert_eq!(next.id, "checkpoint-3");

    // Complete checkpoint-3
    progress.complete_checkpoint("checkpoint-3").unwrap();

    // No more incomplete checkpoints
    assert!(progress.next_incomplete().is_none());
}
