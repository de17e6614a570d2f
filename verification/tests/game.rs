use tetris::block::Block;
use tetris::board::{App, Intent};
use tetris::codec::{highscore_from_bytes, highscore_to_bytes};
use tetris::piece::Piece;

fn block_positions(p: &Piece) -> Vec<(i64, i64)> {
    p.components.iter().map(|b| (b.x, b.y)).collect()
}

fn single_block_piece(x: i64, y: i64) -> Piece {
    Piece { color: 0, components: vec![Block::new(x, y)], min_y: y, max_y: y }
}

#[test]
fn moves_never_leave_the_walls() {
    let mut p = Piece::long();
    for _ in 0..10 {
        p.move_left();
        for b in p.components.iter() {
            assert!(b.x >= -60 && b.x <= 50 && b.y >= -90);
        }
    }
    assert_eq!(block_positions(&p), vec![(-60, 90), (-60, 80), (-60, 70), (-60, 60)]);
    let mut q = Piece::square();
    for _ in 0..10 {
        q.move_right();
        for b in q.components.iter() {
            assert!(b.x >= -60 && b.x <= 50 && b.y >= -90);
        }
    }
    assert_eq!(block_positions(&q), vec![(40, 90), (50, 90), (40, 80), (50, 80)]);
    let mut d = Piece::t_piece();
    for _ in 0..30 {
        d.move_down();
        for b in d.components.iter() {
            assert!(b.x >= -60 && b.x <= 50 && b.y >= -90);
        }
    }
    assert_eq!(d.min_y, -90);
}

#[test]
fn four_rotations_return_every_block() {
    for p0 in [Piece::long(), Piece::square(), Piece::t_piece(), Piece::l_piece()] {
        let before = block_positions(&p0);
        let mut p = p0;
        for _ in 0..4 {
            p.rotate();
        }
        assert_eq!(block_positions(&p), before);
    }
}

#[test]
fn collision_is_symmetric() {
    // The long and the L piece share their spawn blocks at (0, 90) and (0, 80).
    let a = Piece::long();
    let b = Piece::l_piece();
    let mut hit_ab = false;
    for blk in a.components.iter() {
        if b.is_blocked(blk) {
            hit_ab = true;
        }
    }
    let mut hit_ba = false;
    for blk in b.components.iter() {
        if a.is_blocked(blk) {
            hit_ba = true;
        }
    }
    assert!(hit_ab);
    assert!(hit_ba);
    assert!(b.is_blocked(&Block::new(0, 90)));
    assert!(a.is_blocked(&Block::new(0, 90)));
}

#[test]
fn complete_row_is_cleared_and_scored() {
    let mut app = App::new();
    app.pieces.push(Piece::whole_line(-40));
    // A partially filled row above must be left untouched.
    app.pieces.push(single_block_piece(0, -30));
    app.row_clear();
    assert_eq!(app.score, 1000);
    assert_eq!(app.pieces.len(), 2);
    assert!(app.pieces[0].components.is_empty());
    assert_eq!(block_positions(&app.pieces[1]), vec![(0, -30)]);
}

#[test]
fn partial_row_is_not_cleared() {
    let mut app = App::new();
    let mut line = Piece::whole_line(-40);
    line.components.pop();
    app.pieces.push(line);
    app.row_clear();
    assert_eq!(app.score, 0);
    assert_eq!(app.pieces[0].components.len(), 11);
}

#[test]
fn settled_piece_at_death_row_ends_the_game() {
    let mut app = App::new();
    let mut p = Piece::square();
    p.move_down();
    assert_eq!(p.max_y, 80);
    app.pieces.push(p);
    app.is_dead();
    assert!(app.dead);
}

#[test]
fn settled_piece_below_death_row_keeps_playing() {
    let mut app = App::new();
    let mut p = Piece::square();
    p.move_down();
    p.move_down();
    assert_eq!(p.max_y, 70);
    app.pieces.push(p);
    app.is_dead();
    assert!(!app.dead);
}

#[test]
fn highscore_bytes_round_trip() {
    for n in [0u64, 1u64, u64::MAX] {
        let bytes = highscore_to_bytes(n);
        assert_eq!(bytes.len(), 8);
        assert_eq!(highscore_from_bytes(&bytes), n);
    }
    assert_eq!(highscore_to_bytes(1), vec![1, 0, 0, 0, 0, 0, 0, 0]);
    assert_eq!(highscore_to_bytes(0x0102030405060708), vec![8, 7, 6, 5, 4, 3, 2, 1]);
}

#[test]
fn four_soft_drops_lower_the_long_piece_by_forty() {
    let mut app = App::new();
    assert_eq!(app.current_piece.min_y, 60);
    assert_eq!(app.current_piece.max_y, 90);
    for _ in 0..4 {
        app.handle_intent(Intent::SoftDrop);
    }
    assert_eq!(app.current_piece.min_y, 20);
    assert_eq!(app.current_piece.max_y, 50);
}

#[test]
fn soft_drop_onto_a_settled_block_is_refused_by_collision() {
    let mut app = App::new();
    app.pieces.push(single_block_piece(0, -90));
    for _ in 0..14 {
        app.handle_intent(Intent::SoftDrop);
    }
    // The piece rests just above the settled block, not on the floor.
    assert_eq!(app.current_piece.min_y, -80);
    app.handle_intent(Intent::SoftDrop);
    assert_eq!(app.current_piece.min_y, -80);
}

#[test]
fn gravity_locks_a_resting_piece_and_spawns_a_fresh_one() {
    let mut app = App::new();
    // Fifteen gravity steps carry the long piece down to the floor; a tick
    // either locks or moves, so the landed piece is still falling.
    for _ in 0..15 {
        app.handle_piece_with(1, 0, 2);
    }
    assert_eq!(app.current_piece.min_y, -90);
    assert_eq!(app.pieces.len(), 0);
    // On the next tick the resting piece locks where it lies and a fresh
    // piece spawns from the drawn numbers.
    app.handle_piece_with(1, 0, 2);
    assert_eq!(app.pieces.len(), 1);
    assert_eq!(app.pieces[0].min_y, -90);
    assert_eq!(
        block_positions(&app.current_piece),
        vec![(0, 90), (10, 90), (0, 80), (10, 80)]
    );
    assert_eq!(app.current_piece.color, 2);
}

#[test]
fn pause_toggles_only_while_alive() {
    let mut app = App::new();
    app.handle_intent(Intent::TogglePause);
    assert!(app.on_pause);
    app.handle_intent(Intent::TogglePause);
    assert!(!app.on_pause);
    app.dead = true;
    app.handle_intent(Intent::TogglePause);
    assert!(!app.on_pause);
}

#[test]
fn restart_only_acts_once_dead() {
    let mut app = App::new();
    app.score = 500;
    app.highscore = 700;
    app.pieces.push(single_block_piece(0, -90));
    app.handle_intent(Intent::Restart);
    assert_eq!(app.score, 500);
    assert_eq!(app.pieces.len(), 1);
    app.dead = true;
    app.handle_intent(Intent::Restart);
    assert!(!app.dead);
    assert_eq!(app.score, 0);
    assert_eq!(app.highscore, 700);
    assert!(app.pieces.is_empty());
    assert_eq!(app.current_piece.components.len(), 4);
}

#[test]
fn highscore_follows_the_score() {
    let mut app = App::new();
    app.score = 3000;
    app.highscore();
    assert_eq!(app.highscore, 3000);
    app.score = 2000;
    app.highscore();
    assert_eq!(app.highscore, 3000);
}

#[test]
fn quit_raises_the_exit_flag_only() {
    let mut app = App::new();
    app.handle_intent(Intent::Quit);
    assert!(app.exit);
    assert_eq!(app.score, 0);
    assert!(!app.dead);
}

#[test]
fn random_spawn_draws_a_palette_color_and_four_blocks() {
    let mut app = App::new();
    for _ in 0..20 {
        app.next_piece();
        assert!(app.current_piece.color < 7);
        assert_eq!(app.current_piece.components.len(), 4);
    }
}

#[test]
fn spawned_piece_above_the_play_zone_cannot_strafe() {
    // At spawn the long piece still pokes above the playable zone, so a side
    // move is rejected as out of bounds until gravity pulls it down.
    let mut app = App::new();
    app.handle_intent(Intent::MoveLeft);
    assert_eq!(block_positions(&app.current_piece), vec![(0, 90), (0, 80), (0, 70), (0, 60)]);
}

#[test]
fn blocked_move_against_the_wall_is_a_silent_no_op() {
    let mut app = App::new();
    // One soft drop brings the whole piece into the playable zone.
    app.handle_intent(Intent::SoftDrop);
    for _ in 0..6 {
        app.handle_intent(Intent::MoveLeft);
    }
    let at_wall = block_positions(&app.current_piece);
    assert_eq!(at_wall, vec![(-60, 80), (-60, 70), (-60, 60), (-60, 50)]);
    app.handle_intent(Intent::MoveLeft);
    assert_eq!(block_positions(&app.current_piece), at_wall);
    for _ in 0..11 {
        app.handle_intent(Intent::MoveRight);
    }
    let at_right = block_positions(&app.current_piece);
    assert_eq!(at_right, vec![(50, 80), (50, 70), (50, 60), (50, 50)]);
    app.handle_intent(Intent::MoveRight);
    assert_eq!(block_positions(&app.current_piece), at_right);
}
