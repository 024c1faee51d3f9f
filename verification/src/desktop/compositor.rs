//! Compositor: paints the visible windows, bottom to top, and the cursor
//! into a frame of `width` x `height` pixels.
use vstd::prelude::*;
use crate::desktop::window_server::{Surface, Window, WindowServer, visible_order};

verus! {

pub const BACKGROUND: u32 = 0xFF000000;

pub const CURSOR_COLOR: u32 = 0xFFFFFFFF;

pub const CURSOR_SIZE: i32 = 16;

/// Index of pixel `(x, y)` in a row-major frame `w` pixels wide.
pub open spec fn pix(w: u32, x: int, y: int) -> int {
    y * w + x
}

/// The pixel at `(x, y)` of the row-major frame `fb`.
pub open spec fn at(fb: Seq<u32>, w: u32, x: int, y: int) -> u32 {
    fb[pix(w, x, y)]
}

pub open spec fn in_frame(w: u32, h: u32, x: int, y: int) -> bool {
    0 <= x < w && 0 <= y < h
}

pub open spec fn sat(a: int) -> int {
    if a < 0 { 0 } else { a }
}

/// Pixel of a surface, 0 outside it.
pub open spec fn surface_pixel(s: Surface, x: int, y: int) -> u32 {
    if 0 <= x < s.width && 0 <= y < s.height {
        s.pixels@[y * s.width + x]
    } else {
        0
    }
}

/// Column offsets of a window that the copy loop visits: its width, cut
/// where the window passes the frame's right edge.
pub open spec fn clip_w(win: Window, w: u32) -> int {
    let room = sat(w - win.bounds.x);
    if win.bounds.width < room { win.bounds.width as int } else { room }
}

pub open spec fn clip_h(win: Window, h: u32) -> int {
    let room = sat(h - win.bounds.y);
    if win.bounds.height < room { win.bounds.height as int } else { room }
}

/// Whether the window is painted at frame pixel `(x, y)`: the pixel lies in
/// the frame and in the window's rectangle.
pub open spec fn covers(win: Window, w: u32, h: u32, x: int, y: int) -> bool {
    &&& in_frame(w, h, x, y)
    &&& 0 <= x - win.bounds.x < win.bounds.width
    &&& 0 <= y - win.bounds.y < win.bounds.height
}

/// What the window paints at frame pixel `(x, y)`: its surface pixel at
/// the offset from the window's origin.
pub open spec fn window_pixel(win: Window, x: int, y: int) -> u32 {
    surface_pixel(win.surface, x - win.bounds.x, y - win.bounds.y)
}

/// Whether the copy loop reached `(x, y)` after `rows` full rows and
/// `cols` columns of the next.
pub open spec fn painted(win: Window, w: u32, h: u32, rows: int, cols: int, x: int, y: int) -> bool {
    &&& covers(win, w, h, x, y)
    &&& (y - win.bounds.y < rows || (y - win.bounds.y == rows && x - win.bounds.x < cols))
}

/// The frame pixel `(x, y)` after the first `k` windows of `order` were
/// painted onto the background.
pub open spec fn layers(ws: Seq<Window>, order: Seq<int>, k: int, w: u32, h: u32, x: int, y: int) -> u32
    decreases k,
{
    if k <= 0 {
        BACKGROUND
    } else if covers(ws[order[k - 1]], w, h, x, y) {
        window_pixel(ws[order[k - 1]], x, y)
    } else {
        layers(ws, order, k - 1, w, h, x, y)
    }
}

/// Whether the cursor square with corner `(cx, cy)` covers `(x, y)`.
pub open spec fn cursor_covers(cx: i32, cy: i32, x: int, y: int) -> bool {
    0 <= x - cx < CURSOR_SIZE && 0 <= y - cy < CURSOR_SIZE
}

/// The composed frame pixel `(x, y)`.
pub open spec fn frame_pixel(ws: Seq<Window>, w: u32, h: u32, cx: i32, cy: i32, x: int, y: int) -> u32 {
    if cursor_covers(cx, cy, x, y) {
        CURSOR_COLOR
    } else {
        let order = visible_order(ws, ws.len() as int);
        layers(ws, order, order.len() as int, w, h, x, y)
    }
}

proof fn lemma_pix(w: u32, h: u32, x: int, y: int, qx: int, qy: int)
    by (nonlinear_arith)
    requires
        0 <= x < w,
        0 <= y < h,
        0 <= qx < w,
        0 <= qy < h,
    ensures
        0 <= pix(w, x, y) < w * h,
        pix(w, x, y) == pix(w, qx, qy) ==> x == qx && y == qy,
{
    if y < qy {
        assert(y * w + x < (y + 1) * w);
        assert((y + 1) * w <= qy * w);
    } else if qy < y {
        assert(qy * w + qx < (qy + 1) * w);
        assert((qy + 1) * w <= y * w);
    }
    assert(y * w + x < (y + 1) * w);
    assert((y + 1) * w <= h * w);
}

/// Writing pixel `(x0, y0)` changes that pixel only.
proof fn lemma_write(fb: Seq<u32>, w: u32, h: u32, x0: int, y0: int, c: u32)
    requires
        fb.len() == w * h,
        in_frame(w, h, x0, y0),
    ensures
        0 <= pix(w, x0, y0) < fb.len(),
        forall|x: int, y: int|
            in_frame(w, h, x, y) ==> #[trigger] at(fb.update(pix(w, x0, y0), c), w, x, y) == if x == x0
                && y == y0 {
                c
            } else {
                at(fb, w, x, y)
            },
{
    lemma_pix(w, h, x0, y0, x0, y0);
    assert forall|x: int, y: int| in_frame(w, h, x, y) implies #[trigger] at(
        fb.update(pix(w, x0, y0), c),
        w,
        x,
        y,
    ) == if x == x0 && y == y0 {
        c
    } else {
        at(fb, w, x, y)
    } by {
        lemma_pix(w, h, x, y, x0, y0);
    }
}

/// Compositor: its own frame, the frame size and the cursor position.
pub struct Compositor {
    framebuffer: Vec<u32>,
    width: u32,
    height: u32,
    cursor_x: i32,
    cursor_y: i32,
}

impl Compositor {
    pub closed spec fn frame(&self) -> Seq<u32> {
        self.framebuffer@
    }

    pub closed spec fn spec_width(&self) -> u32 {
        self.width
    }

    pub closed spec fn spec_height(&self) -> u32 {
        self.height
    }

    pub closed spec fn spec_cursor(&self) -> (i32, i32) {
        (self.cursor_x, self.cursor_y)
    }

    pub closed spec fn wf(&self) -> bool {
        &&& self.width * self.height <= u32::MAX
        &&& self.width <= i32::MAX
        &&& self.height <= i32::MAX
        &&& self.framebuffer@.len() == self.width * self.height
    }

    /// A compositor for a `width` x `height` frame, cleared to 0, with the
    /// cursor at the origin.
    pub fn new(width: u32, height: u32) -> (c: Self)
        requires
            width * height <= u32::MAX,
            width <= i32::MAX,
            height <= i32::MAX,
        ensures
            c.wf(),
            c.spec_width() == width,
            c.spec_height() == height,
            c.spec_cursor() == (0i32, 0i32),
            forall|i: int| 0 <= i < c.frame().len() ==> c.frame()[i] == 0,
    {
        let n = (width * height) as usize;
        let mut framebuffer: Vec<u32> = Vec::new();
        let mut i: usize = 0;
        while i < n
            invariant
                0 <= i <= n,
                framebuffer@.len() == i,
                forall|j: int| 0 <= j < i ==> framebuffer@[j] == 0,
            decreases n - i,
        {
            framebuffer.push(0);
            i = i + 1;
        }
        Compositor { framebuffer, width, height, cursor_x: 0, cursor_y: 0 }
    }

    /// The composed frame, row-major.
    pub fn framebuffer(&self) -> (r: &[u32])
        ensures
            r@ == self.frame(),
    {
        self.framebuffer.as_slice()
    }

    /// Fills the frame with one color.
    fn clear(&mut self, color: u32)
        requires
            old(self).wf(),
        ensures
            final(self).wf(),
            final(self).spec_width() == old(self).spec_width(),
            final(self).spec_height() == old(self).spec_height(),
            final(self).spec_cursor() == old(self).spec_cursor(),
            forall|i: int| 0 <= i < final(self).frame().len() ==> final(self).frame()[i] == color,
    {
        let n = self.framebuffer.len();
        let mut i: usize = 0;
        while i < n
            invariant
                self.wf(),
                n == self.framebuffer@.len(),
                self.width == old(self).width,
                self.height == old(self).height,
                self.cursor_x == old(self).spec_cursor().0,
                self.cursor_y == old(self).spec_cursor().1,
                0 <= i <= n,
                forall|j: int| 0 <= j < i ==> self.framebuffer@[j] == color,
            decreases n - i,
        {
            self.framebuffer.set(i, color);
            i = i + 1;
        }
    }

    /// Sets one frame pixel; coordinates outside the frame are ignored.
    fn set_pixel(&mut self, x: u32, y: u32, color: u32)
        requires
            old(self).wf(),
        ensures
            final(self).wf(),
            final(self).spec_width() == old(self).spec_width(),
            final(self).spec_height() == old(self).spec_height(),
            final(self).spec_cursor() == old(self).spec_cursor(),
            in_frame(old(self).spec_width(), old(self).spec_height(), x as int, y as int)
                ==> final(self).frame() == old(self).frame().update(pix(old(self).spec_width(), x as int, y as int), color),
            !in_frame(old(self).spec_width(), old(self).spec_height(), x as int, y as int)
                ==> final(self).frame() == old(self).frame(),
    {
        if x < self.width && y < self.height {
            proof {
                lemma_pix(self.width, self.height, x as int, y as int, x as int, y as int);
            }
            let index = (y * self.width + x) as usize;
            self.framebuffer.set(index, color);
        }
    }

    /// Copies a window's surface into the frame, clipped to the frame.
    fn composite_window(&mut self, window: &Window)
        requires
            old(self).wf(),
            window.surface.wf(),
        ensures
            final(self).wf(),
            final(self).spec_width() == old(self).spec_width(),
            final(self).spec_height() == old(self).spec_height(),
            final(self).spec_cursor() == old(self).spec_cursor(),
            forall|x: int, y: int|
                in_frame(old(self).spec_width(), old(self).spec_height(), x, y) ==> #[trigger] at(
                    final(self).frame(),
                    old(self).spec_width(),
                    x,
                    y,
                ) == if covers(*window, old(self).spec_width(), old(self).spec_height(), x, y) {
                    window_pixel(*window, x, y)
                } else {
                    at(old(self).frame(), old(self).spec_width(), x, y)
                },
    {
        let ghost fb0 = self.framebuffer@;
        let w = self.width;
        let h = self.height;
        let win_x = window.bounds.x;
        let win_y = window.bounds.y;
        let room_w: i64 = if (w as i64) - (win_x as i64) > 0 { (w as i64) - (win_x as i64) } else { 0 };
        let room_h: i64 = if (h as i64) - (win_y as i64) > 0 { (h as i64) - (win_y as i64) } else { 0 };
        let cw: u32 = if (window.bounds.width as i64) < room_w { window.bounds.width } else { room_w as u32 };
        let ch: u32 = if (window.bounds.height as i64) < room_h { window.bounds.height } else { room_h as u32 };
        assert(cw == clip_w(*window, w));
        assert(ch == clip_h(*window, h));
        let mut y: u32 = 0;
        while y < ch
            invariant
                self.wf(),
                window.surface.wf(),
                self.width == w,
                self.height == h,
                self.cursor_x == old(self).spec_cursor().0,
                self.cursor_y == old(self).spec_cursor().1,
                fb0 == old(self).framebuffer@,
                w == old(self).width,
                h == old(self).height,
                win_x == window.bounds.x,
                win_y == window.bounds.y,
                cw == clip_w(*window, w),
                ch == clip_h(*window, h),
                0 <= y <= ch,
                forall|x: int, yy: int|
                    in_frame(w, h, x, yy) ==> #[trigger] at(self.framebuffer@, w, x, yy) == if painted(
                        *window,
                        w,
                        h,
                        y as int,
                        0,
                        x,
                        yy,
                    ) {
                        window_pixel(*window, x, yy)
                    } else {
                        at(fb0, w, x, yy)
                    },
            decreases ch - y,
        {
            let mut x: u32 = 0;
            while x < cw
                invariant
                    self.wf(),
                    window.surface.wf(),
                    self.width == w,
                    self.height == h,
                    self.cursor_x == old(self).spec_cursor().0,
                    self.cursor_y == old(self).spec_cursor().1,
                    w == old(self).width,
                    h == old(self).height,
                    win_x == window.bounds.x,
                    win_y == window.bounds.y,
                    cw == clip_w(*window, w),
                    ch == clip_h(*window, h),
                    0 <= y < ch,
                    0 <= x <= cw,
                    forall|px: int, py: int|
                        in_frame(w, h, px, py) ==> #[trigger] at(self.framebuffer@, w, px, py)
                            == if painted(*window, w, h, y as int, x as int, px, py) {
                            window_pixel(*window, px, py)
                        } else {
                            at(fb0, w, px, py)
                        },
                decreases cw - x,
            {
                let pixel = window.surface.get_pixel(x, y);
                let px: i64 = win_x as i64 + x as i64;
                let py: i64 = win_y as i64 + y as i64;
                let ghost before = self.framebuffer@;
                if 0 <= px && px < w as i64 && 0 <= py && py < h as i64 {
                    self.set_pixel(px as u32, py as u32, pixel);
                    proof {
                        lemma_write(before, w, h, px as int, py as int, pixel);
                        assert(pixel == window_pixel(*window, px as int, py as int));
                        assert forall|qx: int, qy: int| in_frame(w, h, qx, qy) implies #[trigger] at(
                            self.framebuffer@,
                            w,
                            qx,
                            qy,
                        ) == if painted(*window, w, h, y as int, x + 1, qx, qy) {
                            window_pixel(*window, qx, qy)
                        } else {
                            at(fb0, w, qx, qy)
                        } by {
                            assert(at(before, w, qx, qy) == if painted(*window, w, h, y as int, x as int, qx, qy) {
                                window_pixel(*window, qx, qy)
                            } else {
                                at(fb0, w, qx, qy)
                            });
                        }
                    }
                } else {
                    proof {
                        assert forall|qx: int, qy: int| in_frame(w, h, qx, qy) implies #[trigger] at(
                            self.framebuffer@,
                            w,
                            qx,
                            qy,
                        ) == if painted(*window, w, h, y as int, x + 1, qx, qy) {
                            window_pixel(*window, qx, qy)
                        } else {
                            at(fb0, w, qx, qy)
                        } by {
                            assert(at(before, w, qx, qy) == if painted(*window, w, h, y as int, x as int, qx, qy) {
                                window_pixel(*window, qx, qy)
                            } else {
                                at(fb0, w, qx, qy)
                            });
                        }
                    }
                }
                x = x + 1;
            }
            proof {
                assert forall|qx: int, qy: int| in_frame(w, h, qx, qy) implies painted(*window, w, h, y as int, cw as int, qx, qy)
                    == painted(*window, w, h, y + 1, 0, qx, qy) by {}
            }
            y = y + 1;
        }
        proof {
            assert forall|qx: int, qy: int| in_frame(w, h, qx, qy) implies painted(*window, w, h, ch as int, 0, qx, qy)
                == covers(*window, w, h, qx, qy) by {}
        }
    }

    /// Draws the cursor square, clipped to the frame.
    fn draw_cursor(&mut self)
        requires
            old(self).wf(),
            old(self).spec_cursor().0 <= i32::MAX - CURSOR_SIZE,
            old(self).spec_cursor().1 <= i32::MAX - CURSOR_SIZE,
        ensures
            final(self).wf(),
            final(self).spec_width() == old(self).spec_width(),
            final(self).spec_height() == old(self).spec_height(),
            final(self).spec_cursor() == old(self).spec_cursor(),
            forall|x: int, y: int|
                in_frame(old(self).spec_width(), old(self).spec_height(), x, y) ==> #[trigger] at(
                    final(self).frame(),
                    old(self).spec_width(),
                    x,
                    y,
                ) == if cursor_covers(old(self).spec_cursor().0, old(self).spec_cursor().1, x, y) {
                    CURSOR_COLOR
                } else {
                    at(old(self).frame(), old(self).spec_width(), x, y)
                },
    {
        let ghost fb0 = self.framebuffer@;
        let w = self.width;
        let h = self.height;
        let cx = self.cursor_x;
        let cy = self.cursor_y;
        let mut dy: i32 = 0;
        while dy < CURSOR_SIZE
            invariant
                self.wf(),
                self.width == w,
                self.height == h,
                self.cursor_x == cx,
                self.cursor_y == cy,
                cx == old(self).spec_cursor().0,
                cy == old(self).spec_cursor().1,
                cx <= i32::MAX - CURSOR_SIZE,
                cy <= i32::MAX - CURSOR_SIZE,
                fb0 == old(self).framebuffer@,
                w == old(self).width,
                h == old(self).height,
                0 <= dy <= CURSOR_SIZE,
                forall|x: int, y: int|
                    in_frame(w, h, x, y) ==> #[trigger] at(self.framebuffer@, w, x, y) == if cursor_covers(
                        cx,
                        cy,
                        x,
                        y,
                    ) && y - cy < dy {
                        CURSOR_COLOR
                    } else {
                        at(fb0, w, x, y)
                    },
            decreases CURSOR_SIZE - dy,
        {
            let mut dx: i32 = 0;
            while dx < CURSOR_SIZE
                invariant
                    self.wf(),
                    self.width == w,
                    self.height == h,
                    self.cursor_x == cx,
                    self.cursor_y == cy,
                    cx <= i32::MAX - CURSOR_SIZE,
                    cy <= i32::MAX - CURSOR_SIZE,
                    w == old(self).width,
                    h == old(self).height,
                    0 <= dy < CURSOR_SIZE,
                    0 <= dx <= CURSOR_SIZE,
                    forall|x: int, y: int|
                        in_frame(w, h, x, y) ==> #[trigger] at(self.framebuffer@, w, x, y) == if cursor_covers(
                            cx,
                            cy,
                            x,
                            y,
                        ) && (y - cy < dy || (y - cy == dy && x - cx < dx)) {
                            CURSOR_COLOR
                        } else {
                            at(fb0, w, x, y)
                        },
                decreases CURSOR_SIZE - dx,
            {
                let x = cx + dx;
                let y = cy + dy;
                let ghost before = self.framebuffer@;
                if x >= 0 && x < w as i32 && y >= 0 && y < h as i32 {
                    self.set_pixel(x as u32, y as u32, CURSOR_COLOR);
                    proof {
                        lemma_write(before, w, h, x as int, y as int, CURSOR_COLOR);
                    }
                }
                proof {
                    assert forall|qx: int, qy: int| in_frame(w, h, qx, qy) implies #[trigger] at(
                        self.framebuffer@,
                        w,
                        qx,
                        qy,
                    ) == if cursor_covers(cx, cy, qx, qy) && (qy - cy < dy || (qy - cy == dy && qx - cx < dx
                        + 1)) {
                        CURSOR_COLOR
                    } else {
                        at(fb0, w, qx, qy)
                    } by {
                        assert(at(before, w, qx, qy) == if cursor_covers(cx, cy, qx, qy) && (qy - cy < dy || (qy
                            - cy == dy && qx - cx < dx)) {
                            CURSOR_COLOR
                        } else {
                            at(fb0, w, qx, qy)
                        });
                    }
                }
                dx = dx + 1;
            }
            dy = dy + 1;
        }
    }

    /// Composes the frame: the background, the visible windows bottom to
    /// top, then the cursor.
    pub fn composite(&mut self, server: &WindowServer)
        requires
            old(self).wf(),
            old(self).spec_cursor().0 <= i32::MAX - CURSOR_SIZE,
            old(self).spec_cursor().1 <= i32::MAX - CURSOR_SIZE,
            forall|i: int| 0 <= i < server.windows().len() ==> (#[trigger] server.windows()[i]).surface.wf(),
        ensures
            final(self).wf(),
            final(self).spec_width() == old(self).spec_width(),
            final(self).spec_height() == old(self).spec_height(),
            final(self).spec_cursor() == old(self).spec_cursor(),
            forall|x: int, y: int|
                in_frame(old(self).spec_width(), old(self).spec_height(), x, y) ==> #[trigger] at(
                    final(self).frame(),
                    old(self).spec_width(),
                    x,
                    y,
                ) == frame_pixel(
                    server.windows(),
                    old(self).spec_width(),
                    old(self).spec_height(),
                    old(self).spec_cursor().0,
                    old(self).spec_cursor().1,
                    x,
                    y,
                ),
    {
        let windows = server.get_visible_windows();
        let ghost ws = server.windows();
        let ghost order = visible_order(ws, ws.len() as int);
        proof {
            crate::desktop::window_server::law_visible_windows_sorted(ws, ws.len() as int);
        }
        let w = self.width;
        let h = self.height;
        self.clear(BACKGROUND);
        proof {
            assert forall|x: int, y: int| in_frame(w, h, x, y) implies #[trigger] at(self.framebuffer@, w, x, y)
                == layers(ws, order, 0, w, h, x, y) by {
                lemma_pix(w, h, x, y, x, y);
                assert(self.frame()[pix(w, x, y)] == BACKGROUND);
            }
        }
        let mut k: usize = 0;
        while k < windows.len()
            invariant
                self.wf(),
                self.width == w,
                self.height == h,
                self.cursor_x == old(self).spec_cursor().0,
                self.cursor_y == old(self).spec_cursor().1,
                w == old(self).width,
                h == old(self).height,
                windows@.len() == order.len(),
                forall|j: int| 0 <= j < order.len() ==> *windows@[j] == ws[#[trigger] order[j]],
                forall|j: int| 0 <= j < order.len() ==> 0 <= #[trigger] order[j] < ws.len(),
                forall|i: int| 0 <= i < ws.len() ==> (#[trigger] ws[i]).surface.wf(),
                0 <= k <= order.len(),
                forall|x: int, y: int|
                    in_frame(w, h, x, y) ==> #[trigger] at(self.framebuffer@, w, x, y) == layers(
                        ws,
                        order,
                        k as int,
                        w,
                        h,
                        x,
                        y,
                    ),
            decreases order.len() - k,
        {
            let window = windows[k];
            proof {
                assert(*window == ws[order[k as int]]);
            }
            let ghost before = self.framebuffer@;
            self.composite_window(window);
            proof {
                assert forall|x: int, y: int| in_frame(w, h, x, y) implies #[trigger] at(self.framebuffer@, w, x, y)
                    == layers(ws, order, k + 1, w, h, x, y) by {
                    assert(at(before, w, x, y) == layers(ws, order, k as int, w, h, x, y));
                    assert(self.frame() == self.framebuffer@);
                    assert(at(self.frame(), w, x, y) == if covers(*window, w, h, x, y) {
                        window_pixel(*window, x, y)
                    } else {
                        at(before, w, x, y)
                    });
                }
            }
            k = k + 1;
        }
        self.draw_cursor();
    }

    /// Moves the cursor.
    pub fn set_cursor_position(&mut self, x: i32, y: i32)
        ensures
            final(self).spec_cursor() == (x, y),
            final(self).frame() == old(self).frame(),
            final(self).spec_width() == old(self).spec_width(),
            final(self).spec_height() == old(self).spec_height(),
            old(self).wf() ==> final(self).wf(),
    {
        self.cursor_x = x;
        self.cursor_y = y;
    }

    /// The cursor position.
    pub fn cursor_position(&self) -> (r: (i32, i32))
        ensures
            r == self.spec_cursor(),
    {
        (self.cursor_x, self.cursor_y)
    }

    /// A short pause standing for the wait for vertical blank; the frame is
    /// not touched.
    pub fn wait_vsync(&self) {
        let mut i: u32 = 0;
        while i < 100000
            invariant
                0 <= i <= 100000,
            decreases 100000 - i,
        {
            i = i + 1;
        }
    }
}

/// Composes and presents a frame, once there is a compositor.
pub fn present(compositor: &mut Option<Compositor>, server: &WindowServer)
    requires
        *old(compositor) matches Some(c) ==> c.wf() && c.spec_cursor().0 <= i32::MAX - CURSOR_SIZE
            && c.spec_cursor().1 <= i32::MAX - CURSOR_SIZE,
        forall|i: int| 0 <= i < server.windows().len() ==> (#[trigger] server.windows()[i]).surface.wf(),
    ensures
        *old(compositor) is None ==> *final(compositor) is None,
        *old(compositor) matches Some(c) ==> *final(compositor) matches Some(d) && d.wf() && d.spec_width()
            == c.spec_width() && d.spec_height() == c.spec_height() && d.spec_cursor() == c.spec_cursor()
            && forall|x: int, y: int|
            in_frame(c.spec_width(), c.spec_height(), x, y) ==> #[trigger] at(d.frame(), c.spec_width(), x, y)
                == frame_pixel(server.windows(), c.spec_width(), c.spec_height(), c.spec_cursor().0, c.spec_cursor().1, x, y),
{
    match compositor {
        Some(c) => {
            c.composite(server);
            c.wait_vsync();
        },
        None => {},
    }
}

} // verus!
