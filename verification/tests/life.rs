use svg_gui::life::{LifeGame, RANDOM_BASE, RANDOM_VARIANCE};

#[test]
fn roulette_spin_stays_in_range() {
    for _ in 0..100 {
        let spin = LifeGame::spin_roulette();
        assert!(spin >= RANDOM_BASE);
        assert!(spin < RANDOM_BASE + RANDOM_VARIANCE);
    }
}

#[test]
fn proceed_advances_and_clamps() {
    let mut game = LifeGame::new(vec![0, 10, -5, 20, 7], 5);
    game.proceed(0);
    // A spin of 0 folds to one step.
    assert_eq!(game.position[0], 1);
    game.proceed(11);
    // 11 % 6 + 1 = 6 steps, clamped at the last stop.
    assert_eq!(game.position[0], 4);
}

#[test]
fn finish_turn_pays_and_passes() {
    let mut game = LifeGame::new(vec![0, 10, -5, 20, 7], 5);
    game.proceed(0);
    game.finish_turn();
    // Player 0 landed on stop 1 and collected its payout.
    assert_eq!(game.dollars[0], 10);
    assert_eq!(game.dollars[1], 0);
    // The turn passes to the next player still on the track.
    assert_eq!(game.current_player, 1);
}
