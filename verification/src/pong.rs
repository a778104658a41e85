//! A game of two paddles and a ball, the first program that the kernel runs
//! for a user: the picture it draws and the rules by which the ball moves.
//!
//! The program asks the kernel for the frame buffer and for the keys that
//! were pressed (see the requests in `syscall`); what it does with them is
//! here.

use vstd::prelude::*;

verus! {

/// Number of pixels in a row of the screen.
pub const SCREEN_WIDTH: i32 = 640;

/// Number of rows of the screen.
pub const SCREEN_HEIGHT: i32 = 480;

#[derive(Clone, Copy, Debug, PartialEq, Eq, Structural)]
pub struct Pixel {
    pub r: u8,
    pub g: u8,
    pub b: u8,
    pub a: u8,
}

impl Pixel {
    /// A colour that lets nothing shine through.
    pub fn new(r: u8, g: u8, b: u8) -> (p: Pixel)
        ensures
            p == (Pixel { r, g, b, a: 255 }),
    {
        Pixel { r, g, b, a: 255 }
    }
}

#[derive(Clone, Copy, Debug, PartialEq, Eq, Structural)]
pub struct Vector {
    pub x: i32,
    pub y: i32,
}

impl Vector {
    pub fn new(x: i32, y: i32) -> (v: Vector)
        ensures
            v == (Vector { x, y }),
    {
        Vector { x, y }
    }
}

#[derive(Clone, Copy, Debug, PartialEq, Eq, Structural)]
pub struct Rectangle {
    pub x: i32,
    pub y: i32,
    pub width: i32,
    pub height: i32,
}

impl Rectangle {
    pub fn new(x: i32, y: i32, width: i32, height: i32) -> (r: Rectangle)
        ensures
            r == (Rectangle { x, y, width, height }),
    {
        Rectangle { x, y, width, height }
    }

    /// The pixel in column `col` of row `row` belongs to the rectangle.
    pub open spec fn holds(self, col: int, row: int) -> bool {
        self.x <= col < self.x + self.width && self.y <= row < self.y + self.height
    }

    /// The right and the lower edge of the rectangle can be computed.
    pub open spec fn in_range(self) -> bool {
        &&& i32::MIN <= self.x + self.width <= i32::MAX
        &&& i32::MIN <= self.y + self.height <= i32::MAX
    }
}

/// Where the pixel in column `x` of row `y` stands in the frame buffer. The
/// rows follow each other without a gap, so a column left of the screen
/// stands for a pixel at the end of the row above; above the first pixel
/// there is nothing, nor right of or below the screen.
pub open spec fn pixel_index(x: int, y: int) -> Option<int> {
    if x < 640 && y < 480 && y * 640 + x >= 0 {
        Some(y * 640 + x)
    } else {
        None
    }
}

/// The picture `pixels` with the pixel in column `x` of row `y` set to `p`.
pub open spec fn put(pixels: Seq<Pixel>, x: int, y: int, p: Pixel) -> Seq<Pixel> {
    match pixel_index(x, y) {
        Some(i) => pixels.update(i, p),
        None => pixels,
    }
}

/// The pixel at position `i` of the frame buffer is one of `rect`.
pub open spec fn covers(rect: Rectangle, i: int) -> bool {
    exists|col: int, row: int| #[trigger] rect.holds(col, row) && pixel_index(col, row) == Some(i)
}

/// The picture `pixels` with the rectangle `rect` filled with `color`.
pub open spec fn painted(pixels: Seq<Pixel>, rect: Rectangle, color: Pixel) -> Seq<Pixel> {
    Seq::new(
        pixels.len(),
        |i: int|
            if covers(rect, i) {
                color
            } else {
                pixels[i]
            },
    )
}

/// The pixel in column `col` of row `row` is one of `rect`, stands at
/// position `i`, and is drawn before the pixel in column `c` of row `r`.
pub open spec fn drawn_at(rect: Rectangle, r: int, c: int, col: int, row: int, i: int) -> bool {
    &&& rect.holds(col, row)
    &&& row < r || (row == r && col < c)
    &&& pixel_index(col, row) == Some(i)
}

/// The pixel at position `i` is drawn before the pixel in column `c` of row
/// `r` when `rect` is filled row by row.
pub open spec fn covered_before(rect: Rectangle, r: int, c: int, i: int) -> bool {
    exists|col: int, row: int| #[trigger] drawn_at(rect, r, c, col, row, i)
}

/// The picture while `rect` is filled, before the pixel in column `c` of
/// row `r` is drawn.
pub open spec fn painted_before(
    pixels: Seq<Pixel>,
    rect: Rectangle,
    color: Pixel,
    r: int,
    c: int,
) -> Seq<Pixel> {
    Seq::new(
        pixels.len(),
        |i: int|
            if covered_before(rect, r, c, i) {
                color
            } else {
                pixels[i]
            },
    )
}

/// Before the first pixel nothing is drawn.
pub proof fn lemma_paint_start(pixels: Seq<Pixel>, rect: Rectangle, color: Pixel)
    ensures
        painted_before(pixels, rect, color, rect.y as int, rect.x as int) == pixels,
{
    let r = rect.y as int;
    let c = rect.x as int;
    assert forall|i: int| !covered_before(rect, r, c, i) by {
        if covered_before(rect, r, c, i) {
            let (col, row) = choose|col: int, row: int| #[trigger] drawn_at(rect, r, c, col, row, i);
            assert(drawn_at(rect, r, c, col, row, i));
        }
    }
    assert(painted_before(pixels, rect, color, r, c) =~= pixels);
}

/// Drawing the pixel in column `c` of row `r` is the next step of filling
/// `rect`.
pub proof fn lemma_paint_step(pixels: Seq<Pixel>, rect: Rectangle, color: Pixel, r: int, c: int)
    requires
        rect.holds(c, r),
        pixels.len() == 640 * 480,
    ensures
        painted_before(pixels, rect, color, r, c + 1) == put(
            painted_before(pixels, rect, color, r, c),
            c,
            r,
            color,
        ),
{
    let before = painted_before(pixels, rect, color, r, c);
    let after = painted_before(pixels, rect, color, r, c + 1);
    assert forall|i: int| 0 <= i < pixels.len() implies after[i] == put(before, c, r, color)[i] by {
        if covered_before(rect, r, c, i) {
            let (col, row) = choose|col: int, row: int| #[trigger] drawn_at(rect, r, c, col, row, i);
            assert(drawn_at(rect, r, c + 1, col, row, i));
        }
        if pixel_index(c, r) == Some(i) {
            assert(drawn_at(rect, r, c + 1, c, r, i));
        }
        if covered_before(rect, r, c + 1, i) {
            let (col, row) = choose|col: int, row: int|
                #[trigger] drawn_at(rect, r, c + 1, col, row, i);
            if !(col == c && row == r) {
                assert(drawn_at(rect, r, c, col, row, i));
            }
        }
    }
    assert(after =~= put(before, c, r, color));
}

/// At the end of row `r` the next row begins.
pub proof fn lemma_paint_row(pixels: Seq<Pixel>, rect: Rectangle, color: Pixel, r: int, c: int)
    requires
        c >= rect.x + rect.width,
    ensures
        painted_before(pixels, rect, color, r, c) == painted_before(
            pixels,
            rect,
            color,
            r + 1,
            rect.x as int,
        ),
{
    let x = rect.x as int;
    assert forall|i: int| covered_before(rect, r, c, i) == covered_before(rect, r + 1, x, i) by {
        if covered_before(rect, r, c, i) {
            let (col, row) = choose|col: int, row: int| #[trigger] drawn_at(rect, r, c, col, row, i);
            assert(drawn_at(rect, r + 1, x, col, row, i));
        }
        if covered_before(rect, r + 1, x, i) {
            let (col, row) = choose|col: int, row: int|
                #[trigger] drawn_at(rect, r + 1, x, col, row, i);
            assert(drawn_at(rect, r, c, col, row, i));
        }
    }
    assert(painted_before(pixels, rect, color, r, c) =~= painted_before(
        pixels,
        rect,
        color,
        r + 1,
        x,
    ));
}

/// After the last row the rectangle is filled.
pub proof fn lemma_paint_end(pixels: Seq<Pixel>, rect: Rectangle, color: Pixel, r: int)
    requires
        r >= rect.y + rect.height,
    ensures
        painted_before(pixels, rect, color, r, rect.x as int) == painted(pixels, rect, color),
{
    let x = rect.x as int;
    assert forall|i: int| covered_before(rect, r, x, i) == covers(rect, i) by {
        if covered_before(rect, r, x, i) {
            let (col, row) = choose|col: int, row: int| #[trigger] drawn_at(rect, r, x, col, row, i);
            assert(rect.holds(col, row) && pixel_index(col, row) == Some(i));
        }
        if covers(rect, i) {
            let (col, row) = choose|col: int, row: int| #[trigger]
                rect.holds(col, row) && pixel_index(col, row) == Some(i);
            assert(drawn_at(rect, r, x, col, row, i));
        }
    }
    assert(painted_before(pixels, rect, color, r, x) =~= painted(pixels, rect, color));
}

/// The picture on the screen: 480 rows of 640 pixels.
pub struct Framebuffer {
    pixels: Vec<Pixel>,
}

impl Framebuffer {
    /// The pixels, row after row.
    pub closed spec fn pixels(&self) -> Seq<Pixel> {
        self.pixels@
    }

    pub open spec fn wf(&self) -> bool {
        self.pixels().len() == 640 * 480
    }

    /// The frame buffer over the picture `pixels`.
    pub fn new(pixels: Vec<Pixel>) -> (fb: Framebuffer)
        requires
            pixels@.len() == 640 * 480,
        ensures
            fb.wf(),
            fb.pixels() == pixels@,
    {
        Framebuffer { pixels }
    }

    /// The pixel in column `x` of row `y`, if it has a place in the frame
    /// buffer.
    pub fn get(&self, x: i32, y: i32) -> (p: Option<Pixel>)
        requires
            self.wf(),
        ensures
            p == match pixel_index(x as int, y as int) {
                Some(i) => Some(self.pixels()[i]),
                None => None,
            },
    {
        if x < 640 && y < 480 {
            let v: i64 = y as i64 * 640 + x as i64;
            if v >= 0 {
                return Some(self.pixels[v as usize]);
            }
        }
        None
    }

    /// Sets the pixel in column `x` of row `y`, if it has a place in the
    /// frame buffer.
    pub fn set(&mut self, x: i32, y: i32, pixel: &Pixel)
        requires
            old(self).wf(),
        ensures
            final(self).wf(),
            final(self).pixels() == put(old(self).pixels(), x as int, y as int, *pixel),
    {
        if x < 640 && y < 480 {
            let v: i64 = y as i64 * 640 + x as i64;
            if v >= 0 {
                self.pixels.set(v as usize, *pixel);
            }
        }
    }

    /// Fills the rectangle `rect` with `color`, row by row.
    pub fn fill_rect(&mut self, rect: &Rectangle, color: &Pixel)
        requires
            old(self).wf(),
            rect.in_range(),
        ensures
            final(self).wf(),
            final(self).pixels() == painted(old(self).pixels(), *rect, *color),
    {
        let row_start: i32 = rect.y;
        let row_finish: i32 = row_start + rect.height;
        let col_start: i32 = rect.x;
        let col_finish: i32 = col_start + rect.width;
        let ghost before = self.pixels();
        proof {
            lemma_paint_start(before, *rect, *color);
        }
        let mut row: i32 = row_start;
        while row < row_finish
            invariant
                self.wf(),
                before.len() == 640 * 480,
                row_start == rect.y,
                col_start == rect.x,
                row_finish == rect.y + rect.height,
                col_finish == rect.x + rect.width,
                row_start <= row,
                self.pixels() == painted_before(before, *rect, *color, row as int, rect.x as int),
            decreases row_finish - row,
        {
            let mut col: i32 = col_start;
            while col < col_finish
                invariant
                    self.wf(),
                    before.len() == 640 * 480,
                    row_start == rect.y,
                    col_start == rect.x,
                    row_finish == rect.y + rect.height,
                    col_finish == rect.x + rect.width,
                    row_start <= row < row_finish,
                    col_start <= col,
                    self.pixels() == painted_before(before, *rect, *color, row as int, col as int),
                decreases col_finish - col,
            {
                proof {
                    lemma_paint_step(before, *rect, *color, row as int, col as int);
                }
                self.set(col, row, color);
                col = col + 1;
            }
            proof {
                lemma_paint_row(before, *rect, *color, row as int, col as int);
            }
            row = row + 1;
        }
        proof {
            lemma_paint_end(before, *rect, *color, row as int);
        }
    }
}

/// Where the ball lies when a round begins.
pub open spec fn ball_start() -> Rectangle {
    Rectangle { x: 320, y: 240, width: 25, height: 25 }
}

/// How the ball moves when a round begins.
pub open spec fn direction_start() -> Vector {
    Vector { x: 15, y: -2i32 }
}

/// The ball at `ball` has passed the line of the player's paddle without
/// touching it: neither its upper nor its lower edge lies at the height of
/// the paddle.
pub open spec fn missed(player: Rectangle, ball: Rectangle) -> bool {
    &&& ball.x < 40
    &&& !(player.y <= ball.y <= player.y + player.height)
    &&& !(player.y <= ball.y + ball.height <= player.y + player.height)
}

/// The place of the player's paddle after it was moved by `y`: it stays
/// between the rows 0 and 400.
pub open spec fn paddle_row(from: int, y: int) -> int {
    if from + y < 0 {
        0
    } else if from + y > 400 {
        400
    } else {
        from + y
    }
}

/// The speed `v` along one axis after a move that has brought the ball to
/// `at`: it turns round where the ball has left the band from `low` to
/// `high`.
pub open spec fn bounced(v: int, at: int, low: int, high: int) -> int {
    if at < low || at > high {
        -v
    } else {
        v
    }
}

/// What lies at a place of the screen, and its colour.
struct Obj {
    pub location: Rectangle,
    pub color: Pixel,
}

impl Obj {
    fn new(location: Rectangle, color: Pixel) -> (o: Obj)
        ensures
            o.location == location,
            o.color == color,
    {
        Obj { location, color }
    }
}

/// The state of the game.
pub struct Pong {
    player: Obj,
    npc: Obj,
    ball: Obj,
    ball_direction: Vector,
    bgcolor: Pixel,
    paused: bool,
}

impl Pong {
    /// The paddle of the player.
    pub closed spec fn player(&self) -> Rectangle {
        self.player.location
    }

    /// The paddle of the machine.
    pub closed spec fn npc(&self) -> Rectangle {
        self.npc.location
    }

    pub closed spec fn ball(&self) -> Rectangle {
        self.ball.location
    }

    /// By how much the ball moves in a frame.
    pub closed spec fn direction(&self) -> Vector {
        self.ball_direction
    }

    pub closed spec fn paused(&self) -> bool {
        self.paused
    }

    /// The colours of the player's paddle, of the machine's paddle, of the
    /// ball and of the background.
    pub closed spec fn colors(&self) -> (Pixel, Pixel, Pixel, Pixel) {
        (self.player.color, self.npc.color, self.ball.color, self.bgcolor)
    }

    /// The paddles and the ball have their sizes, the paddles stand in
    /// their columns and on the screen, and the ball has its speed.
    pub open spec fn wf(&self) -> bool {
        &&& self.player().x == 15 && self.player().width == 25 && self.player().height == 100
        &&& 0 <= self.player().y <= 400
        &&& self.npc().x == 600 && self.npc().width == 25 && self.npc().height == 100
        &&& 0 <= self.npc().y <= i32::MAX - 100
        &&& self.ball().width == 25 && self.ball().height == 25
        &&& self.direction().x == 15 || self.direction().x == -15
        &&& self.direction().y == 2 || self.direction().y == -2
    }

    /// The ball is in the part of the screen that it does not leave by
    /// itself.
    pub open spec fn in_field(&self) -> bool {
        let b = self.ball();
        let d = self.direction();
        &&& d.x == 15 ==> 25 <= b.x <= 580
        &&& d.x == -15 ==> 40 <= b.x <= 595
        &&& d.y == 2 ==> 18 <= b.y <= 430
        &&& d.y == -2 ==> 20 <= b.y <= 432
    }

    /// The ball is far enough from the limits of the numbers for the sums
    /// of one more frame.
    pub open spec fn can_advance(&self) -> bool {
        let b = self.ball();
        let d = self.direction();
        self.paused() || (i32::MIN <= b.x + d.x <= i32::MAX && i32::MIN + 50 <= b.y + d.y
            <= i32::MAX - 50)
    }

    /// The ball is far enough from the limits of the numbers for its right
    /// and lower edge.
    pub open spec fn can_draw(&self) -> bool {
        self.ball().in_range()
    }

    /// A game before its first round: the paddles in the middle of their
    /// columns, the ball in the middle of the screen, and the game paused.
    pub fn new(playc: Pixel, npcc: Pixel, ballc: Pixel, bgcolor: Pixel) -> (g: Pong)
        ensures
            g.wf(),
            g.in_field(),
            g.player() == (Rectangle { x: 15, y: 150, width: 25, height: 100 }),
            g.npc() == (Rectangle { x: 600, y: 150, width: 25, height: 100 }),
            g.ball() == ball_start(),
            g.direction() == direction_start(),
            g.paused(),
            g.colors() == (playc, npcc, ballc, bgcolor),
    {
        Pong {
            player: Obj::new(Rectangle::new(15, 150, 25, 100), playc),
            npc: Obj::new(Rectangle::new(600, 150, 25, 100), npcc),
            ball: Obj::new(Rectangle::new(320, 240, 25, 25), ballc),
            ball_direction: Vector::new(15, -2),
            bgcolor,
            paused: true,
        }
    }

    /// Puts the ball back where a round begins and pauses the game.
    pub fn reset(&mut self)
        ensures
            final(self).ball() == ball_start(),
            final(self).direction() == direction_start(),
            final(self).paused(),
            final(self).player() == old(self).player(),
            final(self).npc() == old(self).npc(),
            final(self).colors() == old(self).colors(),
    {
        self.ball.location = Rectangle::new(320, 240, 25, 25);
        self.ball_direction = Vector::new(15, -2);
        self.paused = true;
    }

    /// One frame of the game. A paused game stays as it is. Else the ball
    /// moves by its speed. Where it has passed the line of the player's
    /// paddle without touching it, the round is lost: the ball goes back to
    /// its start and the game is paused. Else the ball turns round at the
    /// edges of the field, and the paddle of the machine follows the ball.
    pub fn advance_frame(&mut self)
        requires
            old(self).wf(),
            old(self).can_advance(),
        ensures
            final(self).wf(),
            final(self).player() == old(self).player(),
            final(self).colors() == old(self).colors(),
            old(self).paused() ==> {
                &&& final(self).ball() == old(self).ball()
                &&& final(self).direction() == old(self).direction()
                &&& final(self).npc() == old(self).npc()
                &&& final(self).paused()
            },
            !old(self).paused() ==> {
                let d = old(self).direction();
                let moved = Rectangle {
                    x: (old(self).ball().x + d.x) as i32,
                    y: (old(self).ball().y + d.y) as i32,
                    ..old(self).ball()
                };
                if missed(old(self).player(), moved) {
                    &&& final(self).ball() == ball_start()
                    &&& final(self).direction() == direction_start()
                    &&& final(self).npc() == old(self).npc()
                    &&& final(self).paused()
                } else {
                    &&& final(self).ball() == moved
                    &&& final(self).direction().x == bounced(d.x as int, moved.x as int, 40, 580)
                    &&& final(self).direction().y == bounced(d.y as int, moved.y as int, 20, 430)
                    &&& final(self).npc() == (Rectangle {
                        y: if moved.y - 50 > 0 {
                            (moved.y - 50) as i32
                        } else {
                            0
                        },
                        ..old(self).npc()
                    })
                    &&& !final(self).paused()
                }
            },
            old(self).in_field() ==> final(self).in_field(),
    {
        if !self.paused {
            let x = self.ball_direction.x;
            let y = self.ball_direction.y;
            self.move_ball(x, y);
            let miss = if self.ball.location.x < 40 {
                let paddle = (
                    self.player.location.y,
                    self.player.location.y + self.player.location.height,
                );
                let ball = (self.ball.location.y, self.ball.location.y + self.ball.location.height);
                if paddle.0 <= ball.0 && paddle.1 >= ball.0 {
                    false
                } else if paddle.0 <= ball.1 && paddle.1 >= ball.1 {
                    false
                } else {
                    true
                }
            } else {
                false
            };
            if miss {
                self.reset();
                self.paused = true;
            } else {
                if self.ball.location.x < 40 || self.ball.location.x > 580 {
                    self.ball_direction.x = -self.ball_direction.x;
                }
                if self.ball.location.y < 20 || self.ball.location.y > 430 {
                    self.ball_direction.y = -self.ball_direction.y;
                }
                let new_loc = self.ball.location.y - self.npc.location.height / 2;
                self.npc.location.y = if new_loc > 0 {
                    new_loc
                } else {
                    0
                };
            }
        }
    }

    /// Draws the background, the two paddles and the ball, in this order.
    pub fn draw(&self, fb: &mut Framebuffer)
        requires
            self.wf(),
            self.can_draw(),
            old(fb).wf(),
        ensures
            final(fb).wf(),
            final(fb).pixels() == painted(
                painted(
                    painted(
                        painted(
                            old(fb).pixels(),
                            Rectangle { x: 0, y: 0, width: 640, height: 480 },
                            self.colors().3,
                        ),
                        self.player(),
                        self.colors().0,
                    ),
                    self.npc(),
                    self.colors().1,
                ),
                self.ball(),
                self.colors().2,
            ),
    {
        fb.fill_rect(&Rectangle::new(0, 0, 640, 480), &self.bgcolor);
        fb.fill_rect(&self.player.location, &self.player.color);
        fb.fill_rect(&self.npc.location, &self.npc.color);
        fb.fill_rect(&self.ball.location, &self.ball.color);
    }

    /// Moves the paddle of the player by `y` rows, unless the game is
    /// paused; the paddle stays between the rows 0 and 400.
    pub fn move_player(&mut self, y: i32)
        requires
            old(self).wf(),
        ensures
            final(self).wf(),
            final(self).player() == (Rectangle {
                y: if old(self).paused() {
                    old(self).player().y
                } else {
                    paddle_row(old(self).player().y as int, y as int) as i32
                },
                ..old(self).player()
            }),
            final(self).npc() == old(self).npc(),
            final(self).ball() == old(self).ball(),
            final(self).direction() == old(self).direction(),
            final(self).paused() == old(self).paused(),
            final(self).colors() == old(self).colors(),
    {
        if !self.paused {
            let new_loc: i64 = self.player.location.y as i64 + y as i64;
            self.player.location.y = if new_loc < 0 {
                0
            } else if new_loc > 400 {
                400
            } else {
                new_loc as i32
            };
        }
    }

    /// Moves the ball by `x` columns and `y` rows, unless the game is
    /// paused.
    pub fn move_ball(&mut self, x: i32, y: i32)
        requires
            !old(self).paused() ==> i32::MIN <= old(self).ball().x + x <= i32::MAX && i32::MIN <= old(
                self,
            ).ball().y + y <= i32::MAX,
        ensures
            final(self).ball() == (if old(self).paused() {
                old(self).ball()
            } else {
                Rectangle {
                    x: (old(self).ball().x + x) as i32,
                    y: (old(self).ball().y + y) as i32,
                    ..old(self).ball()
                }
            }),
            final(self).player() == old(self).player(),
            final(self).npc() == old(self).npc(),
            final(self).direction() == old(self).direction(),
            final(self).paused() == old(self).paused(),
            final(self).colors() == old(self).colors(),
    {
        if !self.paused {
            self.ball.location.x += x;
            self.ball.location.y += y;
        }
    }

    /// Pauses a game that runs, and lets a paused game run.
    pub fn toggle_pause(&mut self)
        ensures
            final(self).paused() == !old(self).paused(),
            final(self).player() == old(self).player(),
            final(self).npc() == old(self).npc(),
            final(self).ball() == old(self).ball(),
            final(self).direction() == old(self).direction(),
            final(self).colors() == old(self).colors(),
    {
        self.paused = !self.paused;
    }

    pub fn is_paused(&self) -> (r: bool)
        ensures
            r == self.paused(),
    {
        self.paused
    }

    /// Where the ball lies.
    pub fn ball_location(&self) -> (r: Rectangle)
        ensures
            r == self.ball(),
    {
        self.ball.location
    }

    /// Where the paddle of the player and the paddle of the machine lie.
    pub fn paddles(&self) -> (r: (Rectangle, Rectangle))
        ensures
            r == (self.player(), self.npc()),
    {
        (self.player.location, self.npc.location)
    }
}

/// An event as the kernel hands it to a program: its kind, a code and a
/// value.
#[derive(Clone, Copy, Debug, PartialEq, Eq, Structural)]
pub struct Event {
    pub event_type: u16,
    pub code: u16,
    pub value: u32,
}

impl Event {
    /// An event that says nothing.
    pub fn empty() -> (e: Event)
        ensures
            e == (Event { event_type: 0, code: 0, value: 0 }),
    {
        Event { event_type: 0, code: 0, value: 0 }
    }

    pub fn new(event_type: u16, code: u16, value: u32) -> (e: Event)
        ensures
            e == (Event { event_type, code, value }),
    {
        Event { event_type, code, value }
    }
}

/// A ball in the field is far from the limits of the numbers: the game can
/// go on for another frame, and be drawn.
pub proof fn lemma_field_is_safe(game: Pong)
    requires
        game.wf(),
        game.in_field(),
    ensures
        game.can_advance(),
        game.can_draw(),
{
}

/// What a key has done to the game.
#[derive(Clone, Copy, Debug, PartialEq, Eq, Structural)]
pub enum KeyOutcome {
    /// The game is over.
    Quit,
    /// The game has been paused.
    Paused,
    /// The game runs again.
    Resumed,
    /// The game goes on.
    Played,
}

/// Serves a key: Q ends the game, R begins the round anew, W and the upward
/// arrow move the paddle of the player up by 20 rows, S and the downward
/// arrow move it down by as much, and the space bar, when it is pressed,
/// pauses the game or lets it run again. Other keys do nothing.
pub fn handle_key(game: &mut Pong, ev: &Event) -> (r: KeyOutcome)
    requires
        old(game).wf(),
    ensures
        final(game).wf(),
        old(game).in_field() ==> final(game).in_field(),
        final(game).colors() == old(game).colors(),
        final(game).npc() == old(game).npc(),
        ev.code == KEY_R ==> {
            &&& final(game).ball() == ball_start()
            &&& final(game).direction() == direction_start()
            &&& final(game).paused()
        },
        ev.code != KEY_R ==> {
            &&& final(game).ball() == old(game).ball()
            &&& final(game).direction() == old(game).direction()
            &&& final(game).paused() == (old(game).paused() != (ev.code == KEY_SPACE && ev.value
                == 1))
        },
        final(game).player() == (Rectangle {
            y: if old(game).paused() {
                old(game).player().y
            } else if ev.code == KEY_W || ev.code == KEY_UP {
                paddle_row(old(game).player().y as int, -20) as i32
            } else if ev.code == KEY_S || ev.code == KEY_DOWN {
                paddle_row(old(game).player().y as int, 20) as i32
            } else {
                old(game).player().y
            },
            ..old(game).player()
        }),
        r == if ev.code == KEY_Q {
            KeyOutcome::Quit
        } else if ev.code == KEY_SPACE && ev.value == 1 {
            if old(game).paused() {
                KeyOutcome::Resumed
            } else {
                KeyOutcome::Paused
            }
        } else {
            KeyOutcome::Played
        },
{
    let code = ev.code;
    if code == KEY_Q {
        KeyOutcome::Quit
    } else if code == KEY_R {
        game.reset();
        KeyOutcome::Played
    } else if code == KEY_W || code == KEY_UP {
        game.move_player(-20);
        KeyOutcome::Played
    } else if code == KEY_S || code == KEY_DOWN {
        game.move_player(20);
        KeyOutcome::Played
    } else if code == KEY_SPACE && ev.value == 1 {
        game.toggle_pause();
        if game.is_paused() {
            KeyOutcome::Paused
        } else {
            KeyOutcome::Resumed
        }
    } else {
        KeyOutcome::Played
    }
}

// Codes of the keys.
pub const KEY_RESERVED: u16 = 0;

pub const KEY_ESC: u16 = 1;

pub const KEY_1: u16 = 2;

pub const KEY_2: u16 = 3;

pub const KEY_3: u16 = 4;

pub const KEY_4: u16 = 5;

pub const KEY_5: u16 = 6;

pub const KEY_6: u16 = 7;

pub const KEY_7: u16 = 8;

pub const KEY_8: u16 = 9;

pub const KEY_9: u16 = 10;

pub const KEY_0: u16 = 11;

pub const KEY_MINUS: u16 = 12;

pub const KEY_EQUAL: u16 = 13;

pub const KEY_BACKSPACE: u16 = 14;

pub const KEY_TAB: u16 = 15;

pub const KEY_Q: u16 = 16;

pub const KEY_W: u16 = 17;

pub const KEY_E: u16 = 18;

pub const KEY_R: u16 = 19;

pub const KEY_T: u16 = 20;

pub const KEY_Y: u16 = 21;

pub const KEY_U: u16 = 22;

pub const KEY_I: u16 = 23;

pub const KEY_O: u16 = 24;

pub const KEY_P: u16 = 25;

pub const KEY_LEFTBRACE: u16 = 26;

pub const KEY_RIGHTBRACE: u16 = 27;

pub const KEY_ENTER: u16 = 28;

pub const KEY_LEFTCTRL: u16 = 29;

pub const KEY_A: u16 = 30;

pub const KEY_S: u16 = 31;

pub const KEY_D: u16 = 32;

pub const KEY_F: u16 = 33;

pub const KEY_G: u16 = 34;

pub const KEY_H: u16 = 35;

pub const KEY_J: u16 = 36;

pub const KEY_K: u16 = 37;

pub const KEY_L: u16 = 38;

pub const KEY_SEMICOLON: u16 = 39;

pub const KEY_APOSTROPHE: u16 = 40;

pub const KEY_GRAVE: u16 = 41;

pub const KEY_LEFTSHIFT: u16 = 42;

pub const KEY_BACKSLASH: u16 = 43;

pub const KEY_Z: u16 = 44;

pub const KEY_X: u16 = 45;

pub const KEY_C: u16 = 46;

pub const KEY_V: u16 = 47;

pub const KEY_B: u16 = 48;

pub const KEY_N: u16 = 49;

pub const KEY_M: u16 = 50;

pub const KEY_COMMA: u16 = 51;

pub const KEY_DOT: u16 = 52;

pub const KEY_SLASH: u16 = 53;

pub const KEY_RIGHTSHIFT: u16 = 54;

pub const KEY_KPASTERISK: u16 = 55;

pub const KEY_LEFTALT: u16 = 56;

pub const KEY_SPACE: u16 = 57;

pub const KEY_CAPSLOCK: u16 = 58;

pub const KEY_F1: u16 = 59;

pub const KEY_F2: u16 = 60;

pub const KEY_F3: u16 = 61;

pub const KEY_F4: u16 = 62;

pub const KEY_F5: u16 = 63;

pub const KEY_F6: u16 = 64;

pub const KEY_F7: u16 = 65;

pub const KEY_F8: u16 = 66;

pub const KEY_F9: u16 = 67;

pub const KEY_F10: u16 = 68;

pub const KEY_NUMLOCK: u16 = 69;

pub const KEY_SCROLLLOCK: u16 = 70;

pub const KEY_HOME: u16 = 102;

pub const KEY_UP: u16 = 103;

pub const KEY_PAGEUP: u16 = 104;

pub const KEY_LEFT: u16 = 105;

pub const KEY_RIGHT: u16 = 106;

pub const KEY_END: u16 = 107;

pub const KEY_DOWN: u16 = 108;

pub const BTN_MOUSE: u16 = 0x110;

pub const BTN_LEFT: u16 = 0x110;

pub const BTN_RIGHT: u16 = 0x111;

pub const BTN_MIDDLE: u16 = 0x112;

pub const ABS_X: u16 = 0x00;

pub const ABS_Y: u16 = 0x01;

pub const ABS_Z: u16 = 0x02;

} // verus!
