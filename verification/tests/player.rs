use turntable::player::{Player, PlayerState};
use turntable::store::SinkStore;

#[test]
fn paused_player_outputs_silence() {
    let store: SinkStore<f32> = SinkStore::new();
    let mut player = Player::new(3, 300, 1);
    player.pause();
    let outcome = player.process(&store, 4, 0.0);
    assert_eq!(outcome.samples, vec![0.0; 4]);
    assert_eq!(outcome.state_update, None);
    assert!(!outcome.advanced);
    assert!(outcome.time.is_none());
}

#[test]
fn player_reads_sinks_in_order() {
    let mut store = SinkStore::new();
    let mut player = Player::new(3, 300, 1);

    let first_id = store.prepare(0);
    store.finish_activation(first_id, Some(3), 0);
    store.take_write_ref(first_id, 0);
    store.write(first_id, 0, &[1.0f32, 2.0, 3.0]);
    store.release_write_ref(first_id, 0);
    store.seal(first_id);
    let second_id = store.prepare(0);
    store.finish_activation(second_id, Some(3), 0);
    store.take_write_ref(second_id, 0);
    store.write(second_id, 0, &[4.0, 5.0, 6.0]);
    store.release_write_ref(second_id, 0);
    player.set_sinks(&mut store, vec![first_id, second_id], 0);

    let outcome = player.process(&store, 4, 0.0);
    assert_eq!(outcome.samples, vec![1.0, 2.0, 3.0, 4.0]);
    assert_eq!(outcome.state_update, Some(PlayerState::Playing));
    assert!(outcome.advanced, "the first sink was played to its end");
    assert_eq!(outcome.time, Some((1, 4)));
    assert_eq!(player.current_sink(), Some(second_id));

    // The second sink can still load more: the player waits at its void.
    let outcome = player.process(&store, 4, 0.0);
    assert_eq!(outcome.samples, vec![5.0, 6.0, 0.0, 0.0]);
    let outcome = player.process(&store, 4, 0.0);
    assert_eq!(outcome.samples, vec![0.0; 4]);
    assert_eq!(outcome.state_update, Some(PlayerState::Buffering));
    assert_eq!(player.current_state(), PlayerState::Buffering);
}

#[test]
fn empty_player_is_idle() {
    let store: SinkStore<f32> = SinkStore::new();
    let mut player = Player::new(3, 300, 1);
    let outcome = player.process(&store, 2, 0.0);
    assert_eq!(outcome.samples, vec![0.0; 2]);
    assert_eq!(outcome.state_update, None);
    assert_eq!(player.current_state(), PlayerState::Idle);
}
