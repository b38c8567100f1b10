use space_invaders::state::Input;
use space_invaders::state::Point;
use space_invaders::state::SimState;
use space_invaders::state::HEIGHT;
use space_invaders::state::WIDTH;
use space_invaders::step::step;
use space_invaders::step::step_with_random;

fn blank_buffer() -> Vec<u32> {
    vec![0u32; WIDTH * HEIGHT]
}

fn idle() -> Input {
    Input { fire: false, left: false, right: false }
}

#[test]
fn new_state_is_the_documented_start() {
    let s = SimState::new();
    assert_eq!(s.lives, 3);
    assert_eq!(s.score, 0);
    assert_eq!(s.wave, 1);
    assert_eq!(s.anchor, Point { x: 30, y: 30 });
    assert_eq!(s.invaders.len(), 48);
    assert!(s.invaders.iter().all(|&a| a));
    assert_eq!(s.player, Point { x: 240, y: 400 });
    assert!(s.bullets.is_empty());
    assert!(s.enemy_bullets.is_empty());
    assert_eq!(s.time, 0);
    assert!(!s.finished);
}

#[test]
fn fired_bullet_descends_eight_per_tick() {
    let mut s = SimState::new();
    let mut buf = blank_buffer();
    let fire = Input { fire: true, left: false, right: false };
    step(&mut s, &mut buf, fire, 0);
    assert_eq!(s.bullets, vec![Point { x: 240, y: 400 }]);
    let mut expected_y = 400;
    for _ in 0..4 {
        step(&mut s, &mut buf, idle(), 0);
        expected_y -= 8;
        assert_eq!(s.bullets.len(), 1);
        assert_eq!(s.bullets[0], Point { x: 240, y: expected_y });
    }
}

#[test]
fn bullet_in_enemy_box_kills_one_enemy_and_scores_ten() {
    let mut s = SimState::new();
    let mut buf = blank_buffer();
    // sweep left so the tick's anchor is (29, 30): cell (0, 0) covers
    // [29, 53] x [30, 54]; the bullet advances to (30, 40) inside it
    s.velocity = -1;
    s.bullets = vec![Point { x: 30, y: 48 }];
    step(&mut s, &mut buf, idle(), 0);
    assert_eq!(s.anchor, Point { x: 29, y: 30 });
    assert!(!s.invaders[0]);
    assert_eq!(s.invaders.iter().filter(|&&a| a).count(), 47);
    assert_eq!(s.score, 10);
    assert!(s.bullets.is_empty());
}

#[test]
fn kill_scores_ten_times_the_wave_counter() {
    let mut s = SimState::new();
    let mut buf = blank_buffer();
    s.velocity = -1;
    s.wave = 3;
    s.bullets = vec![Point { x: 30, y: 48 }];
    step(&mut s, &mut buf, idle(), 0);
    assert_eq!(s.score, 30);
}

#[test]
fn bullet_outside_every_box_survives_and_scores_nothing() {
    let mut s = SimState::new();
    let mut buf = blank_buffer();
    s.bullets = vec![Point { x: 240, y: 300 }];
    step(&mut s, &mut buf, idle(), 0);
    assert_eq!(s.bullets, vec![Point { x: 240, y: 292 }]);
    assert_eq!(s.score, 0);
    assert_eq!(s.invaders.iter().filter(|&&a| a).count(), 48);
}

#[test]
fn bullet_reaching_the_top_is_removed() {
    let mut s = SimState::new();
    let mut buf = blank_buffer();
    s.bullets = vec![Point { x: 300, y: 8 }];
    step(&mut s, &mut buf, idle(), 0);
    assert!(s.bullets.is_empty());
}

#[test]
fn anchor_flips_and_drops_at_the_right_bound() {
    let mut s = SimState::new();
    let mut buf = blank_buffer();
    s.anchor.x = (WIDTH - 360) as i32;
    s.velocity = 1;
    step(&mut s, &mut buf, idle(), 0);
    assert_eq!(s.velocity, -1);
    assert_eq!(s.anchor, Point { x: 121, y: 40 });
}

#[test]
fn anchor_flips_at_the_left_bound() {
    let mut s = SimState::new();
    let mut buf = blank_buffer();
    s.anchor.x = 11;
    s.velocity = -1;
    step(&mut s, &mut buf, idle(), 0);
    assert_eq!(s.velocity, 1);
    assert_eq!(s.anchor, Point { x: 10, y: 40 });
}

#[test]
fn enemy_bullet_ascends_eight_per_tick() {
    let mut s = SimState::new();
    let mut buf = blank_buffer();
    s.enemy_bullets = vec![Point { x: 100, y: 100 }];
    s.time = 1; // not a fire tick, so no new bullet joins
    step(&mut s, &mut buf, idle(), 0);
    assert_eq!(s.enemy_bullets, vec![Point { x: 100, y: 108 }]);
}

#[test]
fn enemy_bullet_reaching_the_bottom_is_removed() {
    let mut s = SimState::new();
    let mut buf = blank_buffer();
    s.enemy_bullets = vec![Point { x: 100, y: (HEIGHT - 8) as i32 }];
    s.time = 1;
    step(&mut s, &mut buf, idle(), 0);
    assert!(s.enemy_bullets.is_empty());
}

#[test]
fn due_tick_fires_from_the_lowest_alive_enemy_of_the_column() {
    let mut s = SimState::new();
    let mut buf = blank_buffer();
    // time 0 is a fire tick; byte 0 picks column 0; the swept anchor is (31, 30)
    step(&mut s, &mut buf, idle(), 0);
    assert_eq!(s.enemy_bullets, vec![Point { x: 31, y: 30 + 3 * 30 }]);
}

#[test]
fn dead_cells_pass_the_shot_to_the_row_above() {
    let mut s = SimState::new();
    let mut buf = blank_buffer();
    s.invaders[3] = false; // column 0, bottom row
    step(&mut s, &mut buf, idle(), 0);
    assert_eq!(s.enemy_bullets, vec![Point { x: 31, y: 30 + 2 * 30 }]);
}

#[test]
fn a_fully_dead_column_fires_nothing() {
    let mut s = SimState::new();
    let mut buf = blank_buffer();
    for row in 0..4 {
        s.invaders[row] = false; // column 0 entirely
    }
    step(&mut s, &mut buf, idle(), 0);
    assert!(s.enemy_bullets.is_empty());
}

#[test]
fn random_byte_selects_its_column_modulo_twelve() {
    let mut s = SimState::new();
    let mut buf = blank_buffer();
    // byte 14 picks column 2
    step(&mut s, &mut buf, idle(), 14);
    assert_eq!(s.enemy_bullets, vec![Point { x: 31 + 2 * 30, y: 120 }]);
}

#[test]
fn high_waves_floor_the_fire_interval_at_one_tick() {
    let mut s = SimState::new();
    let mut buf = blank_buffer();
    s.wave = 61; // the naive interval 60 / 61 rounds to zero
    s.time = 5;
    step(&mut s, &mut buf, idle(), 0);
    assert_eq!(s.enemy_bullets.len(), 1);
}

#[test]
fn off_beat_ticks_fire_nothing() {
    let mut s = SimState::new();
    let mut buf = blank_buffer();
    s.time = 7; // wave 1 fires every 60 ticks only
    step(&mut s, &mut buf, idle(), 0);
    assert!(s.enemy_bullets.is_empty());
}

#[test]
fn enemy_bullet_on_the_player_costs_a_life() {
    let mut s = SimState::new();
    let mut buf = blank_buffer();
    // advances onto the player's exact top-left pixel this tick
    s.enemy_bullets = vec![Point { x: 240, y: 392 }];
    s.time = 1;
    step(&mut s, &mut buf, idle(), 0);
    assert_eq!(s.lives, 2);
    assert!(s.enemy_bullets.is_empty());
}

#[test]
fn two_hits_in_one_tick_cost_two_lives() {
    let mut s = SimState::new();
    let mut buf = blank_buffer();
    s.enemy_bullets = vec![Point { x: 240, y: 392 }, Point { x: 250, y: 392 }];
    s.time = 1;
    step(&mut s, &mut buf, idle(), 0);
    assert_eq!(s.lives, 1);
    assert!(s.enemy_bullets.is_empty());
}

#[test]
fn lives_floor_at_zero_even_under_many_hits() {
    let mut s = SimState::new();
    let mut buf = blank_buffer();
    s.lives = 1;
    s.enemy_bullets = vec![Point { x: 240, y: 392 }, Point { x: 250, y: 392 }];
    s.time = 1;
    step(&mut s, &mut buf, idle(), 0);
    assert_eq!(s.lives, 0);
}

#[test]
fn last_life_then_frozen_score_frame() {
    let mut s = SimState::new();
    let mut buf = blank_buffer();
    s.lives = 1;
    s.enemy_bullets = vec![Point { x: 240, y: 392 }];
    s.time = 1;
    step(&mut s, &mut buf, idle(), 0);
    assert_eq!(s.lives, 0);
    assert!(!s.finished);
    let time_at_death = s.time;
    // the next tick freezes the state and renders the centred score
    step(&mut s, &mut buf, idle(), 0);
    assert!(s.finished);
    assert_eq!(s.time, time_at_death);
    assert_eq!(s.score, 0);
    // a lone zero glyph, twelve wide, centred at mid-field: its top-left
    // segment pixel is lit, and the frame around it was cleared
    let x = WIDTH / 2 - 12 / 2;
    let y = WIDTH / 2;
    assert_eq!(buf[y * WIDTH + x], 0xFFFFFF);
    assert_eq!(buf[0], 0);
    // further ticks keep everything frozen
    let snapshot = (s.player, s.score, s.wave, s.anchor, s.time);
    step(&mut s, &mut buf, idle(), 9);
    assert_eq!(snapshot, (s.player, s.score, s.wave, s.anchor, s.time));
}

#[test]
fn clearing_the_grid_starts_the_next_wave() {
    let mut s = SimState::new();
    let mut buf = blank_buffer();
    for a in s.invaders.iter_mut() {
        *a = false;
    }
    s.anchor = Point { x: 77, y: 110 };
    s.bullets = vec![Point { x: 200, y: 300 }];
    s.time = 1;
    step(&mut s, &mut buf, idle(), 0);
    assert_eq!(s.invaders.len(), 48);
    assert!(s.invaders.iter().all(|&a| a));
    assert_eq!(s.anchor, Point { x: 30, y: 30 });
    assert_eq!(s.wave, 2);
    assert!(s.bullets.is_empty());
    assert_eq!(s.velocity, 1); // the sweep speed persists across waves
}

#[test]
fn firing_on_the_clearing_tick_keeps_the_new_bullet() {
    let mut s = SimState::new();
    let mut buf = blank_buffer();
    for a in s.invaders.iter_mut() {
        *a = false;
    }
    s.time = 1;
    let fire = Input { fire: true, left: false, right: false };
    step(&mut s, &mut buf, fire, 0);
    assert_eq!(s.wave, 2);
    assert_eq!(s.bullets, vec![Point { x: 240, y: 400 }]);
}

#[test]
fn held_keys_move_the_player_and_clamp_at_the_field() {
    let mut s = SimState::new();
    let mut buf = blank_buffer();
    let left = Input { fire: false, left: true, right: false };
    let right = Input { fire: false, left: false, right: true };
    step(&mut s, &mut buf, left, 0);
    assert_eq!(s.player.x, 236);
    step(&mut s, &mut buf, right, 0);
    assert_eq!(s.player.x, 240);
    s.player.x = 2;
    step(&mut s, &mut buf, left, 0);
    assert_eq!(s.player.x, 0);
    step(&mut s, &mut buf, left, 0);
    assert_eq!(s.player.x, 0);
    s.player.x = 454;
    step(&mut s, &mut buf, right, 0);
    assert_eq!(s.player.x, 456);
    step(&mut s, &mut buf, right, 0);
    assert_eq!(s.player.x, 456);
}

#[test]
fn long_run_keeps_player_and_anchor_in_bounds() {
    let mut s = SimState::new();
    let mut buf = blank_buffer();
    let right = Input { fire: false, left: false, right: true };
    for t in 0..300 {
        step(&mut s, &mut buf, right, (t % 256) as u8);
        assert!(s.player.x >= 0 && s.player.x <= 456);
        assert!(s.anchor.x >= 10 && s.anchor.x <= 121);
        assert!(s.lives <= 3);
    }
}

#[test]
fn randomized_step_smoke() {
    let mut s = SimState::new();
    let mut buf = blank_buffer();
    for _ in 0..120 {
        step_with_random(&mut s, &mut buf, idle());
    }
    assert!(s.lives <= 3);
    assert_eq!(s.time, 120);
    assert!(s.anchor.x >= 10 && s.anchor.x <= 121);
}

#[test]
fn wave_clear_next_tick_draws_the_fresh_grid() {
    let mut s = SimState::new();
    let mut buf = blank_buffer();
    for a in s.invaders.iter_mut() {
        *a = false;
    }
    s.score = 5;
    s.time = 1;
    step(&mut s, &mut buf, idle(), 0); // the clearing tick
    assert_eq!(s.wave, 2);
    assert!(s.bullets.is_empty());
    // the next tick sweeps the reset anchor to (31, 30) and draws all cells;
    // row 8 of the enemy sprite is fully lit, so cell (0, 0) shows magenta
    step(&mut s, &mut buf, idle(), 0);
    assert_eq!(buf[(30 + 8) * WIDTH + 31], 0xFF40FF);
    // the score display still shows the kept score: the 5 glyph's top-left
    // pixel at (10, 10) is lit
    assert_eq!(buf[10 * WIDTH + 10], 0xFFFFFF);
    // no player bullet was carried across the wave
    assert!(s.bullets.is_empty());
}
