use rvkernel::pong::{handle_key, Event, KeyOutcome};
use rvkernel::pong::{Framebuffer, Pixel, Pong, Rectangle, Vector, SCREEN_HEIGHT, SCREEN_WIDTH};
use rvkernel::pong::{KEY_A, KEY_DOWN, KEY_Q, KEY_R, KEY_S, KEY_SPACE, KEY_UP, KEY_W};

const BLACK: Pixel = Pixel { r: 0, g: 0, b: 0, a: 0 };

fn screen() -> Framebuffer {
    Framebuffer::new(vec![BLACK; 640 * 480])
}

fn game() -> Pong {
    Pong::new(
        Pixel::new(255, 0, 0),
        Pixel::new(0, 255, 0),
        Pixel::new(255, 255, 255),
        Pixel::new(25, 36, 100),
    )
}

/// Number of pixels of the screen that have the colour `p`.
fn count(fb: &Framebuffer, p: Pixel) -> usize {
    let mut n = 0;
    for y in 0..SCREEN_HEIGHT {
        for x in 0..SCREEN_WIDTH {
            if fb.get(x, y) == Some(p) {
                n += 1;
            }
        }
    }
    n
}

#[test]
fn colours_are_opaque() {
    assert_eq!(Pixel::new(1, 2, 3), Pixel { r: 1, g: 2, b: 3, a: 255 });
    assert_eq!(Vector::new(3, -4), Vector { x: 3, y: -4 });
    assert_eq!(Rectangle::new(1, 2, 3, 4), Rectangle { x: 1, y: 2, width: 3, height: 4 });
    assert_eq!((SCREEN_WIDTH, SCREEN_HEIGHT), (640, 480));
}

#[test]
fn a_pixel_is_set_where_it_has_a_place() {
    let mut fb = screen();
    let red = Pixel::new(255, 0, 0);
    fb.set(3, 2, &red);
    assert_eq!(fb.get(3, 2), Some(red));
    assert_eq!(fb.get(2, 2), Some(BLACK));
    assert_eq!(count(&fb, red), 1);
    // right of and below the screen
    fb.set(640, 0, &red);
    fb.set(0, 480, &red);
    // above the first pixel
    fb.set(-1, 0, &red);
    fb.set(0, -1, &red);
    assert_eq!(fb.get(640, 0), None);
    assert_eq!(fb.get(0, 480), None);
    assert_eq!(fb.get(-1, 0), None);
    assert_eq!(count(&fb, red), 1);
    // the last pixel
    fb.set(639, 479, &red);
    assert_eq!(fb.get(639, 479), Some(red));
}

#[test]
fn a_column_left_of_the_screen_is_the_end_of_the_row_above() {
    let mut fb = screen();
    let red = Pixel::new(255, 0, 0);
    fb.set(-1, 1, &red);
    assert_eq!(fb.get(639, 0), Some(red));
    assert_eq!(fb.get(-1, 1), Some(red));
    assert_eq!(count(&fb, red), 1);
}

#[test]
fn a_rectangle_is_filled() {
    let mut fb = screen();
    let green = Pixel::new(0, 255, 0);
    fb.fill_rect(&Rectangle::new(10, 20, 3, 2), &green);
    assert_eq!(count(&fb, green), 6);
    for (x, y) in [(10, 20), (11, 20), (12, 20), (10, 21), (11, 21), (12, 21)] {
        assert_eq!(fb.get(x, y), Some(green));
    }
    assert_eq!(fb.get(13, 20), Some(BLACK));
    assert_eq!(fb.get(10, 22), Some(BLACK));
    assert_eq!(fb.get(9, 20), Some(BLACK));
    // a rectangle without a width or a height has no pixel
    let red = Pixel::new(255, 0, 0);
    fb.fill_rect(&Rectangle::new(0, 0, 0, 5), &red);
    fb.fill_rect(&Rectangle::new(0, 0, 5, -1), &red);
    assert_eq!(count(&fb, red), 0);
}

#[test]
fn a_rectangle_is_cut_at_the_right_and_lower_edge() {
    let mut fb = screen();
    let green = Pixel::new(0, 255, 0);
    fb.fill_rect(&Rectangle::new(638, 478, 5, 5), &green);
    assert_eq!(count(&fb, green), 4);
    assert_eq!(fb.get(638, 478), Some(green));
    assert_eq!(fb.get(639, 479), Some(green));
    assert_eq!(fb.get(0, 479), Some(BLACK));
    // left of the screen it reaches into the row above
    let red = Pixel::new(255, 0, 0);
    fb.fill_rect(&Rectangle::new(-2, 1, 3, 1), &red);
    assert_eq!(count(&fb, red), 3);
    assert_eq!(fb.get(638, 0), Some(red));
    assert_eq!(fb.get(639, 0), Some(red));
    assert_eq!(fb.get(0, 1), Some(red));
}

#[test]
fn a_new_game_is_paused() {
    let mut g = game();
    assert!(g.is_paused());
    assert_eq!(g.ball_location(), Rectangle::new(320, 240, 25, 25));
    assert_eq!(g.paddles(), (Rectangle::new(15, 150, 25, 100), Rectangle::new(600, 150, 25, 100)));
    // nothing moves while the game is paused
    g.advance_frame();
    g.move_player(20);
    g.move_ball(5, 5);
    assert!(g.is_paused());
    assert_eq!(g.ball_location(), Rectangle::new(320, 240, 25, 25));
    assert_eq!(g.paddles(), (Rectangle::new(15, 150, 25, 100), Rectangle::new(600, 150, 25, 100)));
    g.toggle_pause();
    assert!(!g.is_paused());
    g.toggle_pause();
    assert!(g.is_paused());
}

#[test]
fn the_ball_moves_and_the_machine_follows() {
    let mut g = game();
    g.toggle_pause();
    g.advance_frame();
    assert_eq!(g.ball_location(), Rectangle::new(335, 238, 25, 25));
    assert_eq!(g.paddles().1, Rectangle::new(600, 188, 25, 100));
    assert_eq!(g.paddles().0, Rectangle::new(15, 150, 25, 100));
    for _ in 1..18 {
        g.advance_frame();
    }
    // behind column 580 the ball turns round
    assert_eq!(g.ball_location(), Rectangle::new(590, 204, 25, 25));
    g.advance_frame();
    assert_eq!(g.ball_location(), Rectangle::new(575, 202, 25, 25));
    assert_eq!(g.paddles().1.y, 152);
}

#[test]
fn the_paddle_sends_the_ball_back() {
    let mut g = game();
    g.toggle_pause();
    for _ in 0..55 {
        g.advance_frame();
    }
    // the lower edge of the ball is at the height of the paddle
    assert_eq!(g.ball_location(), Rectangle::new(35, 130, 25, 25));
    assert!(!g.is_paused());
    g.advance_frame();
    assert_eq!(g.ball_location(), Rectangle::new(50, 128, 25, 25));
    for _ in 56..110 {
        g.advance_frame();
    }
    assert_eq!(g.ball_location(), Rectangle::new(320, 20, 25, 25));
    g.advance_frame();
    // above row 20 the ball turns round; the machine's paddle stays on
    // the screen
    assert_eq!(g.ball_location(), Rectangle::new(305, 18, 25, 25));
    assert_eq!(g.paddles().1.y, 0);
    g.advance_frame();
    assert_eq!(g.ball_location(), Rectangle::new(290, 20, 25, 25));
}

#[test]
fn a_missed_ball_ends_the_round() {
    let mut g = game();
    g.toggle_pause();
    for _ in 0..128 {
        g.advance_frame();
    }
    assert!(!g.is_paused());
    assert_eq!(g.ball_location(), Rectangle::new(50, 52, 25, 25));
    g.advance_frame();
    assert!(g.is_paused());
    assert_eq!(g.ball_location(), Rectangle::new(320, 240, 25, 25));
    assert_eq!(g.paddles().1.y, 2);
    // the next round begins as the first one did
    g.toggle_pause();
    g.advance_frame();
    assert_eq!(g.ball_location(), Rectangle::new(335, 238, 25, 25));
}

#[test]
fn the_paddle_of_the_player_stays_on_the_screen() {
    let mut g = game();
    g.toggle_pause();
    g.move_player(-20);
    assert_eq!(g.paddles().0.y, 130);
    g.move_player(-200);
    assert_eq!(g.paddles().0.y, 0);
    g.move_player(399);
    assert_eq!(g.paddles().0.y, 399);
    g.move_player(20);
    assert_eq!(g.paddles().0.y, 400);
    g.move_player(i32::MAX);
    assert_eq!(g.paddles().0.y, 400);
    g.move_player(i32::MIN);
    assert_eq!(g.paddles().0.y, 0);
}

#[test]
fn the_ball_can_be_moved_and_put_back() {
    let mut g = game();
    g.toggle_pause();
    g.move_ball(-20, 7);
    assert_eq!(g.ball_location(), Rectangle::new(300, 247, 25, 25));
    g.reset();
    assert!(g.is_paused());
    assert_eq!(g.ball_location(), Rectangle::new(320, 240, 25, 25));
}

#[test]
fn the_picture_shows_the_paddles_and_the_ball() {
    let mut g = game();
    let mut fb = screen();
    g.draw(&mut fb);
    let (red, green, white, blue) =
        (Pixel::new(255, 0, 0), Pixel::new(0, 255, 0), Pixel::new(255, 255, 255), Pixel::new(25, 36, 100));
    assert_eq!(count(&fb, red), 25 * 100);
    assert_eq!(count(&fb, green), 25 * 100);
    assert_eq!(count(&fb, white), 25 * 25);
    assert_eq!(count(&fb, blue), 640 * 480 - 2 * 25 * 100 - 25 * 25);
    assert_eq!(fb.get(15, 150), Some(red));
    assert_eq!(fb.get(39, 249), Some(red));
    assert_eq!(fb.get(40, 249), Some(blue));
    assert_eq!(fb.get(600, 150), Some(green));
    assert_eq!(fb.get(320, 240), Some(white));
    assert_eq!(fb.get(344, 264), Some(white));
    assert_eq!(fb.get(345, 264), Some(blue));
    // the ball is drawn last: over the paddle where they meet
    g.toggle_pause();
    g.move_ball(-300, -80);
    g.draw(&mut fb);
    assert_eq!(g.ball_location(), Rectangle::new(20, 160, 25, 25));
    assert_eq!(fb.get(20, 160), Some(white));
    assert_eq!(fb.get(19, 160), Some(red));
    assert_eq!(count(&fb, red), 25 * 100 - 20 * 25);
}

#[test]
fn keys_play_the_game() {
    assert_eq!((KEY_Q, KEY_R, KEY_W, KEY_S, KEY_SPACE, KEY_UP, KEY_DOWN), (16, 19, 17, 31, 57, 103, 108));
    assert_eq!(Event::empty(), Event { event_type: 0, code: 0, value: 0 });
    let key = |code: u16, value: u32| Event::new(1, code, value);
    let mut g = game();
    // the release of the space bar does nothing, the press lets the game run
    assert_eq!(handle_key(&mut g, &key(KEY_SPACE, 0)), KeyOutcome::Played);
    assert!(g.is_paused());
    assert_eq!(handle_key(&mut g, &key(KEY_SPACE, 1)), KeyOutcome::Resumed);
    assert!(!g.is_paused());
    assert_eq!(handle_key(&mut g, &key(KEY_W, 1)), KeyOutcome::Played);
    assert_eq!(g.paddles().0.y, 130);
    assert_eq!(handle_key(&mut g, &key(KEY_UP, 0)), KeyOutcome::Played);
    assert_eq!(g.paddles().0.y, 110);
    assert_eq!(handle_key(&mut g, &key(KEY_S, 1)), KeyOutcome::Played);
    assert_eq!(handle_key(&mut g, &key(KEY_DOWN, 1)), KeyOutcome::Played);
    assert_eq!(handle_key(&mut g, &key(KEY_DOWN, 1)), KeyOutcome::Played);
    assert_eq!(g.paddles().0.y, 170);
    assert_eq!(handle_key(&mut g, &key(KEY_A, 1)), KeyOutcome::Played);
    assert_eq!(g.paddles().0.y, 170);
    g.advance_frame();
    assert_eq!(handle_key(&mut g, &key(KEY_SPACE, 1)), KeyOutcome::Paused);
    assert!(g.is_paused());
    assert_eq!(g.ball_location(), Rectangle::new(335, 238, 25, 25));
    assert_eq!(handle_key(&mut g, &key(KEY_SPACE, 1)), KeyOutcome::Resumed);
    assert_eq!(handle_key(&mut g, &key(KEY_R, 1)), KeyOutcome::Played);
    assert!(g.is_paused());
    assert_eq!(g.ball_location(), Rectangle::new(320, 240, 25, 25));
    assert_eq!(g.paddles().0.y, 170);
    assert_eq!(handle_key(&mut g, &key(KEY_Q, 1)), KeyOutcome::Quit);
    assert!(g.is_paused());
}
