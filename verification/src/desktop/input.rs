//! Input event routing: keyboard to the focused window, mouse to the window under the cursor.
use vstd::prelude::*;
use crate::keyboard::Key;
use crate::desktop::window_server::{WindowServer, WindowId, rect_fits, window_at_upto};

verus! {

/// Mouse buttons.
#[derive(Debug, Clone, Copy, PartialEq, Eq, Structural)]
pub enum MouseButton {
    Left,
    Right,
    Middle,
}

/// Input event types.
#[derive(Debug, Clone, PartialEq, Eq, Structural)]
pub enum InputEvent {
    Key(Key),
    MouseMove(i32, i32),
    MouseButton { x: i32, y: i32, button: MouseButton, pressed: bool },
    MouseWheel { x: i32, y: i32, delta: i8 },
}

/// A relative mouse packet.
#[derive(Debug, Clone, Copy)]
pub struct MouseEvent {
    pub dx: i32,
    pub dy: i32,
    pub left_button: bool,
    pub right_button: bool,
    pub middle_button: bool,
}

/// Input event router; tracks the absolute cursor position.
pub struct InputRouter {
    pub last_mouse_x: i32,
    pub last_mouse_y: i32,
}

/// The button that a packet reports, left taking precedence over right over middle.
pub open spec fn pressed_button(e: MouseEvent) -> Option<MouseButton> {
    if e.left_button {
        Some(MouseButton::Left)
    } else if e.right_button {
        Some(MouseButton::Right)
    } else if e.middle_button {
        Some(MouseButton::Middle)
    } else {
        None
    }
}

/// `after` is `before` with window `id` focused: that window alone carries
/// the focused flag, and nothing else about the windows or the server
/// changes.
pub open spec fn focused_on(before: WindowServer, after: WindowServer, id: WindowId) -> bool {
    &&& after.windows().len() == before.windows().len()
    &&& forall|i: int|
        0 <= i < after.windows().len() ==> {
            let w = #[trigger] after.windows()[i];
            let o = before.windows()[i];
            &&& w.focused == (o.id == id)
            &&& w.id == o.id
            &&& w.bounds == o.bounds
            &&& w.visible == o.visible
            &&& w.z_order == o.z_order
            &&& w.surface == o.surface
            &&& w.title == o.title
        }
    &&& after.spec_focused() == Some(id)
    &&& after.spec_next_window_id() == before.spec_next_window_id()
    &&& after.spec_screen() == before.spec_screen()
}

/// What routing a mouse packet does once the cursor is at `(x, y)`: a
/// press goes to the topmost visible window there, which is focused; a move
/// without buttons goes to that window; the server changes only by focus.
pub open spec fn mouse_routed(before: WindowServer, after: WindowServer, x: i32, y: i32, event: MouseEvent, r: Option<(WindowId, InputEvent)>) -> bool {
    let target = window_at_upto(before.windows(), x, y, before.windows().len() as int);
    match pressed_button(event) {
        Some(b) => match target {
            Some(id) => r == Some((id, InputEvent::MouseButton { x, y, button: b, pressed: true }))
                && focused_on(before, after, id),
            None => r is None && after == before,
        },
        None => {
            &&& after == before
            &&& if event.dx != 0 || event.dy != 0 {
                match target {
                    Some(id) => r == Some((id, InputEvent::MouseMove(x, y))),
                    None => r is None,
                }
            } else {
                r is None
            }
        },
    }
}

impl InputRouter {
    /// Creates a router with the cursor at the origin.
    pub fn new() -> (r: Self)
        ensures
            r.last_mouse_x == 0,
            r.last_mouse_y == 0,
    {
        InputRouter { last_mouse_x: 0, last_mouse_y: 0 }
    }

    /// Routes a key: returns the focused window that receives it, if any.
    pub fn route_keyboard(&self, server: &WindowServer, key: Key) -> (r: Option<(WindowId, InputEvent)>)
        ensures
            match server.spec_focused() {
                Some(id) => r == Some((id, InputEvent::Key(key))),
                None => r is None,
            },
    {
        match server.focused_window() {
            Some(id) => Some((id, InputEvent::Key(key))),
            None => None,
        }
    }

    /// Routes a mouse packet. The cursor moves by the packet's deltas. A button press goes
    /// to the topmost visible window under the cursor, which is focused; a move without
    /// buttons goes to that window. Returns the window and event delivered, if any.
    pub fn route_mouse(&mut self, server: &mut WindowServer, event: MouseEvent) -> (r: Option<
        (WindowId, InputEvent),
    >)
        requires
            old(server).wf(),
            i32::MIN <= old(self).last_mouse_x + event.dx <= i32::MAX,
            i32::MIN <= old(self).last_mouse_y + event.dy <= i32::MAX,
            forall|i: int|
                0 <= i < old(server).windows().len() ==> rect_fits(#[trigger] old(server).windows()[i].bounds),
        ensures
            final(server).wf(),
            final(self).last_mouse_x == old(self).last_mouse_x + event.dx,
            final(self).last_mouse_y == old(self).last_mouse_y + event.dy,
            mouse_routed(*old(server), *final(server), final(self).last_mouse_x, final(self).last_mouse_y, event, r),
    {
        let new_x = self.last_mouse_x + event.dx;
        let new_y = self.last_mouse_y + event.dy;
        self.last_mouse_x = new_x;
        self.last_mouse_y = new_y;
        if event.left_button || event.right_button || event.middle_button {
            let button = if event.left_button {
                MouseButton::Left
            } else if event.right_button {
                MouseButton::Right
            } else {
                MouseButton::Middle
            };
            let input_event = InputEvent::MouseButton { x: new_x, y: new_y, button, pressed: true };
            if let Some(window_id) = server.window_at(new_x, new_y) {
                server.focus_window(window_id);
                return Some((window_id, input_event));
            }
            None
        } else if event.dx != 0 || event.dy != 0 {
            let input_event = InputEvent::MouseMove(new_x, new_y);
            if let Some(window_id) = server.window_at(new_x, new_y) {
                return Some((window_id, input_event));
            }
            None
        } else {
            None
        }
    }
}

/// A key event goes through the router, once there is one.
pub fn handle_keyboard_event(router: &Option<InputRouter>, server: &WindowServer, key: Key) -> (r: Option<(WindowId, InputEvent)>)
    ensures
        router is None ==> r is None,
        router is Some ==> match server.spec_focused() {
            Some(id) => r == Some((id, InputEvent::Key(key))),
            None => r is None,
        },
{
    match router {
        Some(r) => r.route_keyboard(server, key),
        None => None,
    }
}

/// A mouse packet goes through the router, once there is one; without a
/// router nothing changes.
pub fn handle_mouse_event(router: &mut Option<InputRouter>, server: &mut WindowServer, event: MouseEvent) -> (r: Option<(WindowId, InputEvent)>)
    requires
        old(server).wf(),
        *old(router) matches Some(rt) ==> i32::MIN <= rt.last_mouse_x + event.dx <= i32::MAX
            && i32::MIN <= rt.last_mouse_y + event.dy <= i32::MAX,
        forall|i: int|
            0 <= i < old(server).windows().len() ==> rect_fits(#[trigger] old(server).windows()[i].bounds),
    ensures
        final(server).wf(),
        *old(router) is None ==> r is None && *final(server) == *old(server) && *final(router) == *old(router),
        *old(router) matches Some(rt) ==> *final(router) matches Some(nt) && nt.last_mouse_x == rt.last_mouse_x + event.dx
            && nt.last_mouse_y == rt.last_mouse_y + event.dy && mouse_routed(*old(server), *final(server), nt.last_mouse_x, nt.last_mouse_y, event, r),
{
    match router {
        Some(rt) => rt.route_mouse(server, event),
        None => None,
    }
}

/// Routing never changes a window's bounds, so a server whose windows all
/// fit stays so after a mouse packet: the next packet can be routed too.
pub proof fn lemma_routed_keeps_fit(before: WindowServer, after: WindowServer, x: i32, y: i32, event: MouseEvent, r: Option<(WindowId, InputEvent)>)
    requires
        mouse_routed(before, after, x, y, event, r),
        forall|i: int| 0 <= i < before.windows().len() ==> rect_fits(#[trigger] before.windows()[i].bounds),
    ensures
        after.windows().len() == before.windows().len(),
        forall|i: int| 0 <= i < after.windows().len() ==> #[trigger] after.windows()[i].bounds == before.windows()[i].bounds,
        forall|i: int| 0 <= i < after.windows().len() ==> rect_fits(#[trigger] after.windows()[i].bounds),
{
    assert forall|i: int| 0 <= i < after.windows().len() implies #[trigger] after.windows()[i].bounds == before.windows()[i].bounds by {
    }
}

/// Mouse moves accumulate: after two packets through a router the cursor
/// stands where one packet with the summed deltas would put it, and the
/// windows keep their bounds throughout.
pub proof fn law_mouse_moves_accumulate(
    s0: WindowServer,
    s1: WindowServer,
    s2: WindowServer,
    x0: i32,
    y0: i32,
    x1: i32,
    y1: i32,
    x2: i32,
    y2: i32,
    e1: MouseEvent,
    e2: MouseEvent,
    r1: Option<(WindowId, InputEvent)>,
    r2: Option<(WindowId, InputEvent)>,
)
    requires
        x1 == x0 + e1.dx && y1 == y0 + e1.dy,
        x2 == x1 + e2.dx && y2 == y1 + e2.dy,
        mouse_routed(s0, s1, x1, y1, e1, r1),
        mouse_routed(s1, s2, x2, y2, e2, r2),
        forall|i: int| 0 <= i < s0.windows().len() ==> rect_fits(#[trigger] s0.windows()[i].bounds),
    ensures
        x2 == x0 + (e1.dx + e2.dx),
        y2 == y0 + (e1.dy + e2.dy),
        s2.windows().len() == s0.windows().len(),
        forall|i: int| 0 <= i < s2.windows().len() ==> #[trigger] s2.windows()[i].bounds == s0.windows()[i].bounds,
        forall|i: int| 0 <= i < s2.windows().len() ==> rect_fits(#[trigger] s2.windows()[i].bounds),
{
    lemma_routed_keeps_fit(s0, s1, x1, y1, e1, r1);
    lemma_routed_keeps_fit(s1, s2, x2, y2, e2, r2);
    assert forall|i: int| 0 <= i < s2.windows().len() implies #[trigger] s2.windows()[i].bounds == s0.windows()[i].bounds by {
        assert(s1.windows()[i].bounds == s0.windows()[i].bounds);
    }
}

} // verus!
