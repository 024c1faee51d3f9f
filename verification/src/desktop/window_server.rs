//! Window server: windows, their surfaces and stacking.
use vstd::prelude::*;

verus! {

/// Surface ID.
#[derive(Debug, Clone, Copy, PartialEq, Eq, Hash, Structural)]
pub struct SurfaceId(pub u64);

/// Window ID.
#[derive(Debug, Clone, Copy, PartialEq, Eq, Hash, Structural)]
pub struct WindowId(pub u64);

/// Rectangle with a signed origin and unsigned extent.
#[derive(Debug, Clone, Copy)]
pub struct Rect {
    pub x: i32,
    pub y: i32,
    pub width: u32,
    pub height: u32,
}

/// The far edges of `r`, computed as the rectangle code does, stay in range.
pub open spec fn rect_fits(r: Rect) -> bool {
    &&& i32::MIN <= r.x + (r.width as i32) <= i32::MAX
    &&& i32::MIN <= r.y + (r.height as i32) <= i32::MAX
}

pub open spec fn rect_contains(r: Rect, px: i32, py: i32) -> bool {
    px >= r.x && px < r.x + (r.width as i32) && py >= r.y && py < r.y + (r.height as i32)
}

pub open spec fn rect_intersects(a: Rect, b: Rect) -> bool {
    &&& a.x < b.x + (b.width as i32)
    &&& a.x + (a.width as i32) > b.x
    &&& a.y < b.y + (b.height as i32)
    &&& a.y + (a.height as i32) > b.y
}

impl Rect {
    pub fn new(x: i32, y: i32, width: u32, height: u32) -> (r: Self)
        ensures
            r == (Rect { x, y, width, height }),
    {
        Rect { x, y, width, height }
    }

    /// Whether the point lies inside the rectangle (right and bottom edges excluded).
    pub fn contains(&self, px: i32, py: i32) -> (r: bool)
        requires
            rect_fits(*self),
        ensures
            r == rect_contains(*self, px, py),
    {
        px >= self.x && px < self.x + self.width as i32 && py >= self.y && py < self.y
            + self.height as i32
    }

    /// Whether two rectangles overlap.
    pub fn intersects(&self, other: &Rect) -> (r: bool)
        requires
            rect_fits(*self),
            rect_fits(*other),
        ensures
            r == rect_intersects(*self, *other),
    {
        self.x < other.x + other.width as i32 && self.x + self.width as i32 > other.x && self.y
            < other.y + other.height as i32 && self.y + self.height as i32 > other.y
    }
}

/// Backing store of a window's content, row-major, one RGBA word per pixel.
pub struct Surface {
    pub id: SurfaceId,
    pub width: u32,
    pub height: u32,
    pub pixels: Vec<u32>,
}

impl Surface {
    pub open spec fn wf(&self) -> bool {
        &&& self.width * self.height <= u32::MAX
        &&& self.pixels@.len() == self.width * self.height
    }

    /// Index of pixel `(x, y)`.
    pub open spec fn index_of(&self, x: u32, y: u32) -> int {
        y * self.width + x
    }

    /// Creates a surface cleared to 0.
    pub fn new(id: SurfaceId, width: u32, height: u32) -> (s: Self)
        requires
            width * height <= u32::MAX,
        ensures
            s.wf(),
            s.id == id,
            s.width == width,
            s.height == height,
            forall|i: int| 0 <= i < s.pixels@.len() ==> s.pixels@[i] == 0,
    {
        let n = (width * height) as usize;
        let mut pixels: Vec<u32> = Vec::new();
        let mut i: usize = 0;
        while i < n
            invariant
                0 <= i <= n,
                pixels@.len() == i,
                forall|j: int| 0 <= j < i ==> pixels@[j] == 0,
            decreases n - i,
        {
            pixels.push(0);
            i = i + 1;
        }
        Surface { id, width, height, pixels }
    }

    /// Sets one pixel; coordinates outside the surface are ignored.
    pub fn set_pixel(&mut self, x: u32, y: u32, color: u32)
        requires
            old(self).wf(),
        ensures
            final(self).wf(),
            final(self).id == old(self).id,
            final(self).width == old(self).width,
            final(self).height == old(self).height,
            x < old(self).width && y < old(self).height ==> final(self).pixels@ == old(self).pixels@.update(
                old(self).index_of(x, y),
                color,
            ),
            !(x < old(self).width && y < old(self).height) ==> final(self).pixels@ == old(self).pixels@,
    {
        if x < self.width && y < self.height {
            proof {
                lemma_pixel_index(x as int, y as int, self.width as int, self.height as int);
            }
            let index = (y * self.width + x) as usize;
            self.pixels.set(index, color);
        }
    }

    /// Reads one pixel; coordinates outside the surface read 0.
    pub fn get_pixel(&self, x: u32, y: u32) -> (r: u32)
        requires
            self.wf(),
        ensures
            x < self.width && y < self.height ==> r == self.pixels@[self.index_of(x, y)],
            !(x < self.width && y < self.height) ==> r == 0,
    {
        if x < self.width && y < self.height {
            proof {
                lemma_pixel_index(x as int, y as int, self.width as int, self.height as int);
            }
            let index = (y * self.width + x) as usize;
            self.pixels[index]
        } else {
            0
        }
    }

    /// Fills the surface with one color.
    pub fn clear(&mut self, color: u32)
        requires
            old(self).wf(),
        ensures
            final(self).wf(),
            final(self).id == old(self).id,
            final(self).width == old(self).width,
            final(self).height == old(self).height,
            forall|i: int| 0 <= i < final(self).pixels@.len() ==> final(self).pixels@[i] == color,
    {
        let n = self.pixels.len();
        let mut i: usize = 0;
        while i < n
            invariant
                0 <= i <= n,
                n == self.pixels@.len(),
                self.wf(),
                self.id == old(self).id,
                self.width == old(self).width,
                self.height == old(self).height,
                forall|j: int| 0 <= j < i ==> self.pixels@[j] == color,
            decreases n - i,
        {
            self.pixels.set(i, color);
            i = i + 1;
        }
    }
}

proof fn lemma_pixel_index(x: int, y: int, w: int, h: int)
    requires
        0 <= x < w,
        0 <= y < h,
    ensures
        0 <= y * w + x < w * h,
{
    assert(y * w + x < w * h) by (nonlinear_arith)
        requires
            0 <= x < w,
            0 <= y < h,
    ;
    assert(0 <= y * w) by (nonlinear_arith)
        requires
            0 <= y,
            0 <= w,
    ;
}

/// Window.
pub struct Window {
    pub id: WindowId,
    pub surface: Surface,
    pub bounds: Rect,
    pub title: String,
    pub focused: bool,
    pub visible: bool,
    pub z_order: u32,
}

impl Window {
    /// Creates a visible, unfocused window with a cleared surface that shares its ID.
    pub fn new(id: WindowId, x: i32, y: i32, width: u32, height: u32, title: &str) -> (w: Self)
        requires
            width * height <= u32::MAX,
        ensures
            w.id == id,
            w.surface.wf(),
            w.surface.id == SurfaceId(id.0),
            w.surface.width == width,
            w.surface.height == height,
            forall|i: int| 0 <= i < w.surface.pixels@.len() ==> w.surface.pixels@[i] == 0,
            w.bounds == (Rect { x, y, width, height }),
            w.title@ == title@,
            !w.focused,
            w.visible,
            w.z_order == 0,
    {
        let surface = Surface::new(SurfaceId(id.0), width, height);
        Window {
            id,
            surface,
            bounds: Rect::new(x, y, width, height),
            title: title.to_owned(),
            focused: false,
            visible: true,
            z_order: 0,
        }
    }

    /// Moves the window origin.
    pub fn move_to(&mut self, x: i32, y: i32)
        ensures
            final(self).bounds == (Rect { x, y, width: old(self).bounds.width, height: old(self).bounds.height }),
            final(self).id == old(self).id,
            final(self).surface == old(self).surface,
            final(self).title == old(self).title,
            final(self).focused == old(self).focused,
            final(self).visible == old(self).visible,
            final(self).z_order == old(self).z_order,
    {
        self.bounds.x = x;
        self.bounds.y = y;
    }

    /// Resizes the window; its surface is replaced by a cleared one of the new size.
    pub fn resize(&mut self, width: u32, height: u32)
        requires
            width * height <= u32::MAX,
        ensures
            final(self).bounds == (Rect { x: old(self).bounds.x, y: old(self).bounds.y, width, height }),
            final(self).surface.wf(),
            final(self).surface.id == old(self).surface.id,
            final(self).surface.width == width,
            final(self).surface.height == height,
            forall|i: int| 0 <= i < final(self).surface.pixels@.len() ==> final(self).surface.pixels@[i] == 0,
            final(self).id == old(self).id,
            final(self).title == old(self).title,
            final(self).focused == old(self).focused,
            final(self).visible == old(self).visible,
            final(self).z_order == old(self).z_order,
    {
        self.bounds.width = width;
        self.bounds.height = height;
        self.surface = Surface::new(self.surface.id, width, height);
    }
}

/// Window server: the open windows, bottom to top, and focus.
pub struct WindowServer {
    windows: Vec<Window>,
    next_window_id: u64,
    next_surface_id: u64,
    focused_window: Option<WindowId>,
    screen_width: u32,
    screen_height: u32,
}

/// Index of the first window with ID `id` in `ws`, from `i` on.
pub open spec fn find_window(ws: Seq<Window>, id: WindowId, i: int) -> Option<int>
    decreases ws.len() - i,
{
    if i < 0 || i >= ws.len() {
        None
    } else if ws[i].id == id {
        Some(i)
    } else {
        find_window(ws, id, i + 1)
    }
}

/// Topmost visible window among the first `n` of `ws` that contains the point.
/// Window `w` is shown and covers the point.
pub open spec fn shows_point(w: Window, x: i32, y: i32) -> bool {
    w.visible && rect_contains(w.bounds, x, y)
}

/// The hit test answers the topmost window at the point: the answer is
/// the id of a shown window covering the point above which (later in the
/// list) no shown window covers it; no answer means no shown window
/// covers it.
pub open spec fn topmost_at(ws: Seq<Window>, x: i32, y: i32, n: int, r: Option<WindowId>) -> bool {
    match r {
        Some(id) => exists|k: int|
            0 <= k < n && ws[k].id == id && #[trigger] shows_point(ws[k], x, y) && forall|j: int|
                k < j < n ==> !#[trigger] shows_point(ws[j], x, y),
        None => forall|j: int| 0 <= j < n ==> !#[trigger] shows_point(ws[j], x, y),
    }
}

proof fn lemma_window_at_topmost(ws: Seq<Window>, x: i32, y: i32, n: int)
    requires
        0 <= n <= ws.len(),
    ensures
        topmost_at(ws, x, y, n, window_at_upto(ws, x, y, n)),
    decreases n,
{
    if n > 0 {
        lemma_window_at_topmost(ws, x, y, n - 1);
        if shows_point(ws[n - 1], x, y) {
            assert(shows_point(ws[n - 1], x, y));
        } else {
            match window_at_upto(ws, x, y, n - 1) {
                Some(id) => {
                    let k = choose|k: int|
                        0 <= k < n - 1 && ws[k].id == id && #[trigger] shows_point(ws[k], x, y) && forall|j: int|
                            k < j < n - 1 ==> !#[trigger] shows_point(ws[j], x, y);
                    assert forall|j: int| k < j < n implies !#[trigger] shows_point(ws[j], x, y) by {
                        if j < n - 1 {
                        }
                    }
                },
                None => {
                    assert forall|j: int| 0 <= j < n implies !#[trigger] shows_point(ws[j], x, y) by {
                        if j < n - 1 {
                        }
                    }
                },
            }
        }
    }
}

/// Hit testing answers the topmost shown window covering the point, over
/// every window list and point.
pub proof fn law_window_at_topmost(ws: Seq<Window>, x: i32, y: i32)
    ensures
        topmost_at(ws, x, y, ws.len() as int, window_at_upto(ws, x, y, ws.len() as int)),
{
    lemma_window_at_topmost(ws, x, y, ws.len() as int);
}

pub open spec fn window_at_upto(ws: Seq<Window>, x: i32, y: i32, n: int) -> Option<WindowId>
    decreases n,
{
    if n <= 0 {
        None
    } else if ws[n - 1].visible && rect_contains(ws[n - 1].bounds, x, y) {
        Some(ws[n - 1].id)
    } else {
        window_at_upto(ws, x, y, n - 1)
    }
}

proof fn lemma_find_window(ws: Seq<Window>, id: WindowId, i: int)
    requires
        0 <= i,
    ensures
        match find_window(ws, id, i) {
            Some(k) => i <= k < ws.len() && ws[k].id == id && forall|j: int| i <= j < k ==> ws[j].id != id,
            None => forall|j: int| i <= j < ws.len() ==> ws[j].id != id,
        },
    decreases ws.len() - i,
{
    if i < ws.len() && ws[i].id != id {
        lemma_find_window(ws, id, i + 1);
    }
}

/// Position in `order` (indices into `ws`) before which a window of depth
/// `z` goes: the first entry from `k` on that lies deeper than `z`.
pub open spec fn z_slot(ws: Seq<Window>, order: Seq<int>, z: u32, k: int) -> int
    decreases order.len() - k,
{
    if k < 0 || k >= order.len() {
        order.len() as int
    } else if ws[order[k]].z_order > z {
        k
    } else {
        z_slot(ws, order, z, k + 1)
    }
}

/// Indices of the visible windows among the first `n` of `ws`, ordered by
/// depth; windows of equal depth keep their order.
pub open spec fn visible_order(ws: Seq<Window>, n: int) -> Seq<int>
    decreases n,
{
    if n <= 0 {
        Seq::empty()
    } else {
        let prev = visible_order(ws, n - 1);
        if ws[n - 1].visible {
            prev.insert(z_slot(ws, prev, ws[n - 1].z_order, 0), n - 1)
        } else {
            prev
        }
    }
}

/// Whether the indices `order` run through `ws` by non-decreasing depth.
pub open spec fn z_sorted(ws: Seq<Window>, order: Seq<int>) -> bool {
    forall|a: int, b: int|
        0 <= a < b < order.len() ==> ws[#[trigger] order[a]].z_order <= ws[#[trigger] order[b]].z_order
}

proof fn lemma_z_slot(ws: Seq<Window>, order: Seq<int>, z: u32, k: int)
    requires
        0 <= k <= order.len(),
    ensures
        k <= z_slot(ws, order, z, k) <= order.len(),
        forall|j: int| k <= j < z_slot(ws, order, z, k) ==> ws[#[trigger] order[j]].z_order <= z,
        z_slot(ws, order, z, k) < order.len() ==> ws[order[z_slot(ws, order, z, k)]].z_order > z,
    decreases order.len() - k,
{
    if k < order.len() && ws[order[k]].z_order <= z {
        lemma_z_slot(ws, order, z, k + 1);
    }
}

/// The visible windows come bottom to top: their depths never decrease,
/// each is a visible window, and each visible window appears.
pub proof fn law_visible_windows_sorted(ws: Seq<Window>, n: int)
    requires
        0 <= n <= ws.len(),
    ensures
        z_sorted(ws, visible_order(ws, n)),
        forall|k: int| 0 <= k < visible_order(ws, n).len() ==> 0 <= #[trigger] visible_order(ws, n)[k] < n
            && ws[visible_order(ws, n)[k]].visible,
        forall|i: int| 0 <= i < n && ws[i].visible ==> visible_order(ws, n).contains(i),
    decreases n,
{
    if n > 0 {
        law_visible_windows_sorted(ws, n - 1);
        let prev = visible_order(ws, n - 1);
        if ws[n - 1].visible {
            let z = ws[n - 1].z_order;
            let p = z_slot(ws, prev, z, 0);
            lemma_z_slot(ws, prev, z, 0);
            let next = prev.insert(p, n - 1);
            assert forall|a: int, b: int| 0 <= a < b < next.len() implies ws[#[trigger] next[a]].z_order
                <= ws[#[trigger] next[b]].z_order by {
                if b < p {
                } else if b == p {
                    assert(next[a] == prev[a]);
                } else if a == p {
                    assert(next[b] == prev[b - 1]);
                    assert(ws[prev[p]].z_order > z);
                    if b - 1 > p {
                        assert(ws[prev[p]].z_order <= ws[prev[b - 1]].z_order);
                    }
                } else if a < p {
                    assert(next[a] == prev[a]);
                    assert(next[b] == prev[b - 1]);
                } else {
                    assert(next[a] == prev[a - 1]);
                    assert(next[b] == prev[b - 1]);
                }
            }
            assert forall|i: int| 0 <= i < n && ws[i].visible implies next.contains(i) by {
                if i == n - 1 {
                    assert(next[p] == n - 1);
                } else {
                    assert(prev.contains(i));
                    let j = choose|j: int| 0 <= j < prev.len() && prev[j] == i;
                    assert(0 <= j < prev.len() && prev[j] == i);
                    if j < p {
                        assert(next[j] == i);
                    } else {
                        assert(next[j + 1] == i);
                    }
                }
            }
        }
    }
}

impl WindowServer {
    /// Open windows, bottom to top.
    pub closed spec fn windows(&self) -> Seq<Window> {
        self.windows@
    }

    pub closed spec fn spec_focused(&self) -> Option<WindowId> {
        self.focused_window
    }

    pub closed spec fn spec_next_window_id(&self) -> u64 {
        self.next_window_id
    }

    pub closed spec fn spec_screen(&self) -> (u32, u32) {
        (self.screen_width, self.screen_height)
    }

    /// Window IDs are distinct and below the next ID to be handed out.
    pub closed spec fn wf(&self) -> bool {
        &&& forall|i: int| 0 <= i < self.windows@.len() ==> (#[trigger] self.windows@[i]).id.0 < self.next_window_id
        &&& forall|i: int, j: int|
            0 <= i < j < self.windows@.len() ==> self.windows@[i].id != self.windows@[j].id
    }

    /// Creates a window server for a screen of the given size.
    pub fn new(screen_width: u32, screen_height: u32) -> (s: Self)
        ensures
            s.wf(),
            s.windows().len() == 0,
            s.spec_focused() is None,
            s.spec_next_window_id() == 1,
            s.spec_screen() == (screen_width, screen_height),
    {
        WindowServer {
            windows: Vec::new(),
            next_window_id: 1,
            next_surface_id: 1,
            focused_window: None,
            screen_width,
            screen_height,
        }
    }

    /// Opens a window on top of the others and focuses it.
    pub fn create_window(&mut self, x: i32, y: i32, width: u32, height: u32, title: &str) -> (id: WindowId)
        requires
            old(self).wf(),
            old(self).spec_next_window_id() < u64::MAX,
            width * height <= u32::MAX,
        ensures
            final(self).wf(),
            id == WindowId(old(self).spec_next_window_id()),
            final(self).spec_next_window_id() == old(self).spec_next_window_id() + 1,
            final(self).windows().len() == old(self).windows().len() + 1,
            final(self).windows().subrange(0, old(self).windows().len() as int) == old(self).windows(),
            ({
                let w = final(self).windows().last();
                &&& w.id == id
                &&& w.bounds == (Rect { x, y, width, height })
                &&& w.title@ == title@
                &&& w.visible
                &&& !w.focused
                &&& w.z_order == 0
                &&& w.surface.wf()
                &&& w.surface.width == width
                &&& w.surface.height == height
            }),
            final(self).spec_focused() == Some(id),
            final(self).spec_screen() == old(self).spec_screen(),
    {
        let window_id = WindowId(self.next_window_id);
        self.next_window_id = self.next_window_id + 1;
        let window = Window::new(window_id, x, y, width, height, title);
        self.windows.push(window);
        self.focused_window = Some(window_id);
        proof {
            assert(self.windows@.subrange(0, old(self).windows@.len() as int) =~= old(self).windows@);
        }
        window_id
    }

    /// Closes a window; the focus is dropped if it was on that window.
    pub fn destroy_window(&mut self, window_id: WindowId)
        requires
            old(self).wf(),
        ensures
            final(self).wf(),
            match find_window(old(self).windows(), window_id, 0) {
                Some(i) => final(self).windows() == old(self).windows().remove(i),
                None => final(self).windows() == old(self).windows(),
            },
            final(self).spec_focused() == if old(self).spec_focused() == Some(window_id) {
                None
            } else {
                old(self).spec_focused()
            },
            final(self).spec_next_window_id() == old(self).spec_next_window_id(),
            final(self).spec_screen() == old(self).spec_screen(),
    {
        proof {
            lemma_find_window(self.windows@, window_id, 0);
        }
        if let Some(i) = self.find_index(window_id) {
            self.windows.remove(i);
        }
        if self.focused_window == Some(window_id) {
            self.focused_window = None;
        }
        proof {
            assert forall|a: int, b: int| 0 <= a < b < self.windows@.len() implies self.windows@[a].id
                != self.windows@[b].id by {
                if let Some(k) = find_window(old(self).windows@, window_id, 0) {
                    let oa = if a < k { a } else { a + 1 };
                    let ob = if b < k { b } else { b + 1 };
                    assert(self.windows@[a] == old(self).windows@[oa]);
                    assert(self.windows@[b] == old(self).windows@[ob]);
                }
            }
            assert forall|a: int| 0 <= a < self.windows@.len() implies (#[trigger] self.windows@[a]).id.0 < self.next_window_id by {
                if let Some(k) = find_window(old(self).windows@, window_id, 0) {
                    let oa = if a < k { a } else { a + 1 };
                    assert(self.windows@[a] == old(self).windows@[oa]);
                }
            }
        }
    }

    fn find_index(&self, window_id: WindowId) -> (r: Option<usize>)
        ensures
            r matches Some(i) ==> find_window(self.windows(), window_id, 0) == Some(i as int),
            r is None ==> find_window(self.windows(), window_id, 0) is None,
    {
        let mut i: usize = 0;
        while i < self.windows.len()
            invariant
                0 <= i <= self.windows@.len(),
                find_window(self.windows@, window_id, 0) == find_window(self.windows@, window_id, i as int),
            decreases self.windows@.len() - i,
        {
            if self.windows[i].id == window_id {
                return Some(i);
            }
            i = i + 1;
        }
        None
    }

    /// The window with the given ID.
    pub fn get_window(&self, window_id: WindowId) -> (r: Option<&Window>)
        ensures
            match find_window(self.windows(), window_id, 0) {
                Some(i) => r == Some(&self.windows()[i]),
                None => r is None,
            },
    {
        let mut i: usize = 0;
        while i < self.windows.len()
            invariant
                0 <= i <= self.windows@.len(),
                find_window(self.windows@, window_id, 0) == find_window(self.windows@, window_id, i as int),
            decreases self.windows@.len() - i,
        {
            if self.windows[i].id == window_id {
                return Some(&self.windows[i]);
            }
            i = i + 1;
        }
        None
    }

    /// The visible windows ordered by depth, bottom to top; windows of
    /// equal depth keep their order.
    pub fn get_visible_windows(&self) -> (r: Vec<&Window>)
        ensures
            ({
                let order = visible_order(self.windows(), self.windows().len() as int);
                &&& r@.len() == order.len()
                &&& forall|k: int| 0 <= k < order.len() ==> *r@[k] == self.windows()[#[trigger] order[k]]
            }),
    {
        let ghost ws = self.windows@;
        let mut order: Vec<usize> = Vec::new();
        let mut i: usize = 0;
        while i < self.windows.len()
            invariant
                ws == self.windows@,
                0 <= i <= ws.len(),
                order@.len() == visible_order(ws, i as int).len(),
                forall|k: int| 0 <= k < order@.len() ==> order@[k] as int == #[trigger] visible_order(ws, i as int)[k],
                forall|k: int| 0 <= k < order@.len() ==> order@[k] < i,
            decreases ws.len() - i,
        {
            if self.windows[i].visible {
                let ghost prev = visible_order(ws, i as int);
                let z = self.windows[i].z_order;
                let mut p: usize = 0;
                while p < order.len()
                    invariant
                        ws == self.windows@,
                        0 <= p <= order@.len(),
                        i < ws.len(),
                        order@.len() == prev.len(),
                        forall|k: int| 0 <= k < order@.len() ==> order@[k] as int == #[trigger] prev[k],
                        forall|k: int| 0 <= k < order@.len() ==> order@[k] < i,
                        z == ws[i as int].z_order,
                        z_slot(ws, prev, z, 0) == z_slot(ws, prev, z, p as int),
                    ensures
                        0 <= p <= order@.len(),
                        z_slot(ws, prev, z, 0) == p,
                    decreases order@.len() - p,
                {
                    if self.windows[order[p]].z_order > z {
                        break;
                    }
                    p = p + 1;
                }
                let ghost before = order@;
                order.insert(p, i);
                proof {
                    let next = visible_order(ws, i + 1);
                    assert(next == prev.insert(p as int, i as int));
                    assert(next.len() == order@.len());
                    assert forall|k: int| 0 <= k < order@.len() implies order@[k] as int == #[trigger] next[k] by {
                        if k < p {
                            assert(order@[k] == before[k]);
                            assert(next[k] == prev[k]);
                        } else if k == p {
                        } else {
                            assert(order@[k] == before[k - 1]);
                            assert(next[k] == prev[k - 1]);
                        }
                    }
                }
            } else {
                proof {
                    assert(visible_order(ws, i + 1) == visible_order(ws, i as int));
                }
            }
            i = i + 1;
        }
        let mut r: Vec<&Window> = Vec::new();
        let mut k: usize = 0;
        while k < order.len()
            invariant
                ws == self.windows@,
                0 <= k <= order@.len(),
                order@.len() == visible_order(ws, ws.len() as int).len(),
                forall|j: int| 0 <= j < order@.len() ==> order@[j] as int == #[trigger] visible_order(ws, ws.len() as int)[j],
                forall|j: int| 0 <= j < order@.len() ==> order@[j] < ws.len(),
                r@.len() == k,
                forall|j: int| 0 <= j < k ==> *r@[j] == ws[order@[j] as int],
            decreases order@.len() - k,
        {
            r.push(&self.windows[order[k]]);
            k = k + 1;
        }
        r
    }

    /// Focuses a window: it alone carries the focused flag, and it becomes the focus.
    pub fn focus_window(&mut self, window_id: WindowId)
        requires
            old(self).wf(),
        ensures
            final(self).wf(),
            final(self).windows().len() == old(self).windows().len(),
            forall|i: int|
                0 <= i < final(self).windows().len() ==> {
                    let w = #[trigger] final(self).windows()[i];
                    let o = old(self).windows()[i];
                    &&& w.focused == (o.id == window_id)
                    &&& w.id == o.id
                    &&& w.bounds == o.bounds
                    &&& w.visible == o.visible
                    &&& w.z_order == o.z_order
                    &&& w.surface == o.surface
                    &&& w.title == o.title
                },
            final(self).spec_focused() == Some(window_id),
            final(self).spec_next_window_id() == old(self).spec_next_window_id(),
            final(self).spec_screen() == old(self).spec_screen(),
    {
        let n = self.windows.len();
        let mut i: usize = 0;
        while i < n
            invariant
                0 <= i <= n,
                n == self.windows@.len(),
                n == old(self).windows@.len(),
                self.next_window_id == old(self).next_window_id,
                self.screen_width == old(self).screen_width,
                self.screen_height == old(self).screen_height,
                forall|j: int|
                    0 <= j < n ==> {
                        let w = #[trigger] self.windows@[j];
                        let o = old(self).windows@[j];
                        &&& w.focused == if j < i { o.id == window_id } else { o.focused }
                        &&& w.id == o.id
                        &&& w.bounds == o.bounds
                        &&& w.visible == o.visible
                        &&& w.z_order == o.z_order
                        &&& w.surface == o.surface
                        &&& w.title == o.title
                    },
            decreases n - i,
        {
            let focused = self.windows[i].id == window_id;
            self.windows[i].focused = focused;
            i = i + 1;
        }
        self.focused_window = Some(window_id);
        proof {
            assert forall|a: int| 0 <= a < self.windows@.len() implies (#[trigger] self.windows@[a]).id.0 < self.next_window_id by {
                assert(self.windows@[a].id == old(self).windows@[a].id);
            }
            assert forall|a: int, b: int| 0 <= a < b < self.windows@.len() implies self.windows@[a].id
                != self.windows@[b].id by {
                assert(self.windows@[a].id == old(self).windows@[a].id);
                assert(self.windows@[b].id == old(self).windows@[b].id);
            }
        }
    }

    /// The focused window.
    pub fn focused_window(&self) -> (r: Option<WindowId>)
        ensures
            r == self.spec_focused(),
    {
        self.focused_window
    }

    /// The topmost visible window that contains the point.
    pub fn window_at(&self, x: i32, y: i32) -> (r: Option<WindowId>)
        requires
            forall|i: int| 0 <= i < self.windows().len() ==> rect_fits(#[trigger] self.windows()[i].bounds),
        ensures
            r == window_at_upto(self.windows(), x, y, self.windows().len() as int),
            topmost_at(self.windows(), x, y, self.windows().len() as int, r),
    {
        proof {
            law_window_at_topmost(self.windows(), x, y);
        }
        let mut i = self.windows.len();
        while i > 0
            invariant
                0 <= i <= self.windows@.len(),
                forall|j: int| 0 <= j < self.windows@.len() ==> rect_fits(#[trigger] self.windows@[j].bounds),
                window_at_upto(self.windows@, x, y, self.windows@.len() as int) == window_at_upto(
                    self.windows@,
                    x,
                    y,
                    i as int,
                ),
                topmost_at(self.windows(), x, y, self.windows().len() as int, window_at_upto(self.windows@, x, y, self.windows@.len() as int)),
            decreases i,
        {
            let w = &self.windows[i - 1];
            if w.visible && w.bounds.contains(x, y) {
                return Some(w.id);
            }
            i = i - 1;
        }
        None
    }

    /// Screen dimensions.
    pub fn screen_size(&self) -> (r: (u32, u32))
        ensures
            r == self.spec_screen(),
    {
        (self.screen_width, self.screen_height)
    }
}

/// Creates the window server the first time only: a slot that already
/// holds one is left as it is.
pub fn init_window_server(slot: &mut Option<WindowServer>, screen_width: u32, screen_height: u32)
    ensures
        *old(slot) is Some ==> *final(slot) == *old(slot),
        *old(slot) is None ==> match *final(slot) {
            Some(s) => {
                &&& s.wf()
                &&& s.windows().len() == 0
                &&& s.spec_focused() is None
                &&& s.spec_next_window_id() == 1
                &&& s.spec_screen() == (screen_width, screen_height)
            },
            None => false,
        },
{
    if slot.is_none() {
        *slot = Some(WindowServer::new(screen_width, screen_height));
    }
}

} // verus!
