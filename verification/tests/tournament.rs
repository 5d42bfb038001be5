use xiangqi_arbiter::game::Outcome;
use xiangqi_arbiter::tournament::Tournament;

/// A helper summing queued plus running over all ordered pairs.
fn outstanding(t: &Tournament) -> u64 {
    let n = t.num_players();
    let mut total: u64 = 0;
    for h in 0..n {
        for a in 0..n {
            total += t.pair_status(h, a).queued as u64;
        }
    }
    total + t.running_total() as u64
}

#[test]
fn join_registers_player_and_instance() {
    let mut t = Tournament::new();
    let joined = t.join("alice".to_string());
    assert_eq!(joined.player, 0);
    assert_eq!(joined.instance_seq, 0);
    assert!(joined.launches.is_empty());
    assert_eq!(t.num_players(), 1);
    assert_eq!(t.instances_available(0), 1);
    assert_eq!(t.player_name(0).as_deref(), Some("alice"));
    assert_eq!(t.iter_players(), ["alice"]);
}

#[test]
fn join_same_name_twice_keeps_id_and_fifo_order() {
    let mut t = Tournament::new();
    let first = t.join("alice".to_string());
    let second = t.join("alice".to_string());
    assert_eq!(first.player, 0);
    assert_eq!(second.player, 0);
    assert_eq!(first.instance_seq, 0);
    assert_eq!(second.instance_seq, 1);
    assert_eq!(t.num_players(), 1);
    assert_eq!(t.instances_available(0), 2);
}

#[test]
fn enqueue_unknown_player_is_refused() {
    let t = Tournament::new();
    assert!(t.enqueue("nobody").is_none());
}

#[test]
fn enqueue_unknown_opponent_reports_and_commits_the_rest() {
    let mut t = Tournament::new();
    t.join("alice".to_string());
    t.join("bob".to_string());
    let mut queue = t.enqueue("alice").unwrap();
    queue.against("nobody".to_string(), 2);
    queue.against("bob".to_string(), 2);
    let (launches, unknown) = queue.done(&mut t);
    // The unknown name is reported once; the known opponent commits
    // regardless, and the matcher starts the first game at once.
    assert_eq!(unknown, ["nobody"]);
    assert_eq!(launches.len(), 1);
    assert_eq!(launches[0].home, 0);
    assert_eq!(launches[0].away, 1);
    assert_eq!(t.pair_status(0, 1).running, 1);
    assert_eq!(t.pair_status(0, 1).queued, 0);
    assert_eq!(t.pair_status(1, 0).queued, 1);
    assert_eq!(outstanding(&t), 2);
}

#[test]
fn enqueue_splits_colours_with_odd_game_red() {
    let mut t = Tournament::new();
    t.join("alice".to_string());
    t.join("bob".to_string());
    // No free instance on bob's side once the first game starts, so the
    // counters stay observable.
    let mut queue = t.enqueue("alice").unwrap();
    queue.against("bob".to_string(), 5);
    let (launches, unknown) = queue.done(&mut t);
    assert!(unknown.is_empty());
    assert_eq!(launches.len(), 1);
    // ceil(5/2) = 3 with alice as red, floor(5/2) = 2 with bob as red;
    // one of alice's games is already running.
    assert_eq!(t.pair_status(0, 1).queued + t.pair_status(0, 1).running, 3);
    assert_eq!(t.pair_status(1, 0).queued + t.pair_status(1, 0).running, 2);
    assert_eq!(outstanding(&t), 5);
}

#[test]
fn three_instances_start_one_game_then_the_next() {
    let mut t = Tournament::new();
    t.join("alice".to_string());
    t.join("alice".to_string());
    t.join("bob".to_string());
    let mut queue = t.enqueue("alice").unwrap();
    queue.against("bob".to_string(), 4);
    let (launches, unknown) = queue.done(&mut t);
    assert!(unknown.is_empty());
    // Bob has a single instance, so exactly one game starts.
    assert_eq!(launches.len(), 1);
    assert_eq!(t.running_total(), 1);
    assert_eq!(outstanding(&t), 4);
    // When it finishes and the instances return, the next one starts.
    let first = launches[0];
    let next = t.complete(first.home, first.home_seq, Outcome::Stalemate, true, true);
    assert_eq!(next.len(), 1);
    assert_eq!(t.running_total(), 1);
    assert_eq!(outstanding(&t), 3);
}

#[test]
fn completion_scores_home_side_and_returns_instances() {
    let mut t = Tournament::new();
    t.join("alice".to_string());
    t.join("bob".to_string());
    let mut queue = t.enqueue("alice").unwrap();
    queue.against_as("bob".to_string(), true);
    let (launches, _) = queue.done(&mut t);
    assert_eq!(launches.len(), 1);
    assert_eq!(t.instances_available(0), 0);
    assert_eq!(t.instances_available(1), 0);
    let game = launches[0];
    let next = t.complete(game.home, game.home_seq, Outcome::RedWon, true, true);
    assert!(next.is_empty());
    assert_eq!(t.pair_status(0, 1).score.win, 1);
    assert_eq!(t.pair_status(0, 1).running, 0);
    assert_eq!(t.instances_available(0), 1);
    assert_eq!(t.instances_available(1), 1);
    assert_eq!(outstanding(&t), 0);
}

#[test]
fn disconnect_drops_the_offending_instance() {
    let mut t = Tournament::new();
    t.join("alice".to_string());
    t.join("bob".to_string());
    let mut queue = t.enqueue("alice").unwrap();
    queue.against_as("bob".to_string(), true);
    let (launches, _) = queue.done(&mut t);
    let game = launches[0];
    // The mover (alice, red) dropped its connection: black wins, the
    // surviving instance returns, alice's does not.
    t.complete(game.home, game.home_seq, Outcome::BlackWon, false, true);
    assert_eq!(t.pair_status(0, 1).score.loss, 1);
    assert_eq!(t.instances_available(0), 0);
    assert_eq!(t.instances_available(1), 1);
}

#[test]
fn status_reports_are_mirror_images() {
    let mut t = Tournament::new();
    t.join("alice".to_string());
    t.join("bob".to_string());
    // Three games: alice wins one as red, bob wins one as red, one draw.
    let mut queue = t.enqueue("alice").unwrap();
    queue.against_as("bob".to_string(), true);
    let (launches, _) = queue.done(&mut t);
    t.complete(launches[0].home, launches[0].home_seq, Outcome::RedWon, true, true);
    let mut queue = t.enqueue("bob").unwrap();
    queue.against_as("alice".to_string(), true);
    let (launches, _) = queue.done(&mut t);
    t.complete(launches[0].home, launches[0].home_seq, Outcome::RedWon, true, true);
    let mut queue = t.enqueue("alice").unwrap();
    queue.against_as("bob".to_string(), true);
    let (launches, _) = queue.done(&mut t);
    t.complete(launches[0].home, launches[0].home_seq, Outcome::MoveRule, true, true);

    let alice_view = t.status("alice").unwrap();
    let bob_view = t.status("bob").unwrap();
    assert_eq!(alice_view.len(), 1);
    assert_eq!(bob_view.len(), 1);
    let (other, from_alice) = &alice_view[0];
    assert_eq!(other, "bob");
    let (other, from_bob) = &bob_view[0];
    assert_eq!(other, "alice");
    // Wins and losses swap, draws agree.
    assert_eq!(from_alice.score.win, 1);
    assert_eq!(from_alice.score.loss, 1);
    assert_eq!(from_alice.score.draw, 1);
    assert_eq!(from_alice.score.win, from_bob.score.loss);
    assert_eq!(from_alice.score.loss, from_bob.score.win);
    assert_eq!(from_alice.score.draw, from_bob.score.draw);
    assert_eq!(from_alice.queued, from_bob.queued);
    assert_eq!(from_alice.running, from_bob.running);
    assert!(t.status("nobody").is_none());
}

#[test]
fn against_all_skips_self_and_excluded() {
    let mut t = Tournament::new();
    t.join("alice".to_string());
    t.join("bob".to_string());
    t.join("human".to_string());
    // Nobody has a second instance free, so take the instances out of
    // the way first by using up none: count the owed games instead.
    let mut queue = t.enqueue("alice").unwrap();
    queue.against_all(&t, 2);
    queue.except("human".to_string());
    let before = outstanding(&t);
    let (_, unknown) = queue.done(&mut t);
    assert!(unknown.is_empty());
    // Two games against bob only; none against herself or human.
    assert_eq!(outstanding(&t), before + 2);
    assert_eq!(
        t.pair_status(0, 2).queued + t.pair_status(0, 2).running,
        0
    );
    assert_eq!(
        t.pair_status(2, 0).queued + t.pair_status(2, 0).running,
        0
    );
}

#[test]
fn matcher_is_idempotent() {
    let mut t = Tournament::new();
    t.join("alice".to_string());
    t.join("bob".to_string());
    t.join("alice".to_string());
    let mut queue = t.enqueue("alice").unwrap();
    queue.against("bob".to_string(), 6);
    let (launches, _) = queue.done(&mut t);
    assert_eq!(launches.len(), 1);
    // With no state change in between, a second matcher pass starts
    // nothing new and changes nothing.
    let before_running = t.running_total();
    let before = outstanding(&t);
    let again = t.match_all();
    assert!(again.is_empty());
    assert_eq!(t.running_total(), before_running);
    assert_eq!(outstanding(&t), before);
}

#[test]
fn outstanding_games_are_conserved() {
    let mut t = Tournament::new();
    t.join("alice".to_string());
    t.join("bob".to_string());
    assert_eq!(outstanding(&t), 0);
    let mut queue = t.enqueue("alice").unwrap();
    queue.against("bob".to_string(), 4);
    let (launches, _) = queue.done(&mut t);
    // Enqueue added four; launching games moves them to running but
    // never changes the total.
    assert_eq!(outstanding(&t), 4);
    // Every completion removes exactly one outstanding game.
    let mut done: u64 = 0;
    let mut pending: Vec<_> = launches;
    while let Some(game) = pending.pop() {
        let next = t.complete(game.home, game.home_seq, Outcome::Stalemate, true, true);
        done += 1;
        assert_eq!(outstanding(&t), 4 - done);
        pending.extend(next);
    }
    assert_eq!(done, 4);
    assert_eq!(outstanding(&t), 0);
    assert_eq!(t.pair_status(0, 1).score.draw + t.pair_status(1, 0).score.draw, 4);
}
