use ellipse_fit::draw_command::{DrawCommand, Rgba};
use ellipse_fit::engine::{accept_candidate, select_best, SearchState};

fn cmd_with_x(x: u32) -> DrawCommand {
    DrawCommand {
        x,
        y: 0,
        rx: 1,
        ry: 1,
        angle: 0,
        color: Rgba { r: 0, g: 0, b: 0, a: 255 },
    }
}

#[test]
fn select_best_takes_the_first_minimum() {
    let results = vec![
        (30i64, cmd_with_x(0)),
        (10i64, cmd_with_x(1)),
        (10i64, cmd_with_x(2)),
        (20i64, cmd_with_x(3)),
    ];
    let best = select_best(&results);
    assert_eq!(best.0, 10);
    assert_eq!(best.1.x, 1);
}

#[test]
fn select_best_single_entry() {
    let results = vec![(5i64, cmd_with_x(9))];
    let best = select_best(&results);
    assert_eq!(best.0, 5);
    assert_eq!(best.1.x, 9);
}

#[test]
fn accept_candidate_needs_strict_improvement() {
    let a = cmd_with_x(1);
    let b = cmd_with_x(2);
    assert_eq!(accept_candidate(10, a, 9, b), (9, b));
    assert_eq!(accept_candidate(10, a, 10, b), (10, a));
    assert_eq!(accept_candidate(10, a, 11, b), (10, a));
}

#[test]
fn commit_only_on_strict_improvement() {
    let bg = Rgba { r: 9, g: 9, b: 9, a: 255 };
    let mut state = SearchState::init(bg, 100);
    assert_eq!(state.commands.len(), 0);
    assert_eq!(state.best_score, 100);

    assert!(state.commit_if_better(90, cmd_with_x(1)));
    assert_eq!(state.best_score, 90);
    assert_eq!(state.commands.len(), 1);

    assert!(!state.commit_if_better(90, cmd_with_x(2)));
    assert_eq!(state.best_score, 90);
    assert_eq!(state.commands.len(), 1);

    assert!(!state.commit_if_better(95, cmd_with_x(3)));
    assert_eq!(state.best_score, 90);
    assert_eq!(state.commands.len(), 1);

    assert!(state.commit_if_better(80, cmd_with_x(4)));
    assert_eq!(state.best_score, 80);
    assert_eq!(state.commands.len(), 2);
    assert_eq!(state.bg, bg);
}

#[test]
fn run_generation_commits_the_first_best_improvement() {
    let bg = Rgba { r: 0, g: 0, b: 0, a: 255 };
    let mut state = SearchState::init(bg, 50);
    // No candidate improves: nothing changes and nothing is returned.
    let stale = vec![(50i64, cmd_with_x(1)), (60i64, cmd_with_x(2))];
    assert_eq!(state.run_generation(&stale), None);
    assert_eq!(state.best_score, 50);
    assert_eq!(state.commands.len(), 0);
    // The first of two equally improving candidates wins.
    let better = vec![(49i64, cmd_with_x(7)), (49i64, cmd_with_x(8))];
    assert_eq!(state.run_generation(&better), Some(cmd_with_x(7)));
    assert_eq!(state.best_score, 49);
    assert_eq!(state.commands.len(), 1);
}

#[test]
fn global_best_never_increases_across_generations() {
    let bg = Rgba { r: 0, g: 0, b: 0, a: 255 };
    let mut state = SearchState::init(bg, 1000);
    let generation_scores: [i64; 8] = [1100, 900, 950, 800, 800, 1200, 700, 700];
    let mut previous = state.best_score;
    for (i, s) in generation_scores.iter().enumerate() {
        state.commit_if_better(*s, cmd_with_x(i as u32));
        assert!(state.best_score <= previous);
        previous = state.best_score;
    }
    assert_eq!(state.best_score, 700);
    assert_eq!(state.commands.len(), 3);
}
