//! PS/2 keyboard driver: scancode decoding and a bounded key ring buffer.
use vstd::prelude::*;

verus! {

/// Keyboard buffer size.
pub const BUFFER_SIZE: usize = 256;

/// Key representation.
#[derive(Debug, Clone, Copy, PartialEq, Eq, Structural)]
pub enum Key {
    NoKey,
    A, B, C, D, E, F, G, H, I, J, K, L, M,
    N, O, P, Q, R, S, T, U, V, W, X, Y, Z,
    Num0, Num1, Num2, Num3, Num4, Num5, Num6, Num7, Num8, Num9,
    Space,
    Enter,
    Backspace,
    Tab,
    Escape,
    ArrowUp,
    ArrowDown,
    ArrowLeft,
    ArrowRight,
}

/// Character produced by a key, if any.
pub open spec fn key_char(k: Key) -> Option<char> {
    match k {
        Key::A => Some('a'),
        Key::B => Some('b'),
        Key::C => Some('c'),
        Key::D => Some('d'),
        Key::E => Some('e'),
        Key::F => Some('f'),
        Key::G => Some('g'),
        Key::H => Some('h'),
        Key::I => Some('i'),
        Key::J => Some('j'),
        Key::K => Some('k'),
        Key::L => Some('l'),
        Key::M => Some('m'),
        Key::N => Some('n'),
        Key::O => Some('o'),
        Key::P => Some('p'),
        Key::Q => Some('q'),
        Key::R => Some('r'),
        Key::S => Some('s'),
        Key::T => Some('t'),
        Key::U => Some('u'),
        Key::V => Some('v'),
        Key::W => Some('w'),
        Key::X => Some('x'),
        Key::Y => Some('y'),
        Key::Z => Some('z'),
        Key::Num0 => Some('0'),
        Key::Num1 => Some('1'),
        Key::Num2 => Some('2'),
        Key::Num3 => Some('3'),
        Key::Num4 => Some('4'),
        Key::Num5 => Some('5'),
        Key::Num6 => Some('6'),
        Key::Num7 => Some('7'),
        Key::Num8 => Some('8'),
        Key::Num9 => Some('9'),
        Key::Space => Some(' '),
        Key::Enter => Some('\n'),
        Key::Backspace => Some('\x08'),
        Key::Tab => Some('\t'),
        _ => None,
    }
}

impl Key {
    /// Converts a key to the character it types.
    pub fn to_char(self) -> (r: Option<char>)
        ensures
            r == key_char(self),
    {
        match self {
            Key::A => Some('a'),
            Key::B => Some('b'),
            Key::C => Some('c'),
            Key::D => Some('d'),
            Key::E => Some('e'),
            Key::F => Some('f'),
            Key::G => Some('g'),
            Key::H => Some('h'),
            Key::I => Some('i'),
            Key::J => Some('j'),
            Key::K => Some('k'),
            Key::L => Some('l'),
            Key::M => Some('m'),
            Key::N => Some('n'),
            Key::O => Some('o'),
            Key::P => Some('p'),
            Key::Q => Some('q'),
            Key::R => Some('r'),
            Key::S => Some('s'),
            Key::T => Some('t'),
            Key::U => Some('u'),
            Key::V => Some('v'),
            Key::W => Some('w'),
            Key::X => Some('x'),
            Key::Y => Some('y'),
            Key::Z => Some('z'),
            Key::Num0 => Some('0'),
            Key::Num1 => Some('1'),
            Key::Num2 => Some('2'),
            Key::Num3 => Some('3'),
            Key::Num4 => Some('4'),
            Key::Num5 => Some('5'),
            Key::Num6 => Some('6'),
            Key::Num7 => Some('7'),
            Key::Num8 => Some('8'),
            Key::Num9 => Some('9'),
            Key::Space => Some(' '),
            Key::Enter => Some('\n'),
            Key::Backspace => Some('\x08'),
            Key::Tab => Some('\t'),
            _ => None,
        }
    }
}

/// Key that a scancode-set-2 make code denotes, if any.
pub open spec fn scancode_key(scancode: u8) -> Option<Key> {
    if scancode == 0x1C { Some(Key::A) }
    else if scancode == 0x32 { Some(Key::B) }
    else if scancode == 0x21 { Some(Key::C) }
    else if scancode == 0x23 { Some(Key::D) }
    else if scancode == 0x24 { Some(Key::E) }
    else if scancode == 0x2B { Some(Key::F) }
    else if scancode == 0x34 { Some(Key::G) }
    else if scancode == 0x33 { Some(Key::H) }
    else if scancode == 0x43 { Some(Key::I) }
    else if scancode == 0x3B { Some(Key::J) }
    else if scancode == 0x42 { Some(Key::K) }
    else if scancode == 0x4B { Some(Key::L) }
    else if scancode == 0x3A { Some(Key::M) }
    else if scancode == 0x31 { Some(Key::N) }
    else if scancode == 0x44 { Some(Key::O) }
    else if scancode == 0x4D { Some(Key::P) }
    else if scancode == 0x15 { Some(Key::Q) }
    else if scancode == 0x2D { Some(Key::R) }
    else if scancode == 0x1B { Some(Key::S) }
    else if scancode == 0x2C { Some(Key::T) }
    else if scancode == 0x3C { Some(Key::U) }
    else if scancode == 0x2A { Some(Key::V) }
    else if scancode == 0x1D { Some(Key::W) }
    else if scancode == 0x35 { Some(Key::Y) }
    else if scancode == 0x1A { Some(Key::Z) }
    else if scancode == 0x29 { Some(Key::Space) }
    else if scancode == 0x5A { Some(Key::Enter) }
    else if scancode == 0x66 { Some(Key::Backspace) }
    else if scancode == 0x0D { Some(Key::Tab) }
    else if scancode == 0x76 { Some(Key::Escape) }
    else { None }
}

/// Bounded single-producer single-consumer key ring; one slot stays free.
pub struct KeyboardBuffer {
    buffer: [Key; 256],
    read_pos: usize,
    write_pos: usize,
}

impl KeyboardBuffer {
    pub closed spec fn wf(&self) -> bool {
        self.read_pos < 256 && self.write_pos < 256
    }

    /// Number of keys waiting.
    pub closed spec fn spec_len(&self) -> nat {
        if self.write_pos >= self.read_pos {
            (self.write_pos - self.read_pos) as nat
        } else {
            (256 - self.read_pos + self.write_pos) as nat
        }
    }

    /// The waiting keys, oldest first.
    pub closed spec fn view(&self) -> Seq<Key> {
        Seq::new(self.spec_len(), |i: int| self.buffer@[(self.read_pos + i) % 256])
    }

    /// An empty buffer.
    pub fn new() -> (b: Self)
        ensures
            b.wf(),
            b@ == Seq::<Key>::empty(),
    {
        let b = KeyboardBuffer { buffer: [Key::NoKey; 256], read_pos: 0, write_pos: 0 };
        assert(b@ =~= Seq::<Key>::empty());
        b
    }

    /// Appends a key unless the buffer already holds 255 keys.
    pub fn push(&mut self, key: Key)
        requires
            old(self).wf(),
        ensures
            final(self).wf(),
            old(self)@.len() < 255 ==> final(self)@ == old(self)@.push(key),
            old(self)@.len() >= 255 ==> final(self)@ == old(self)@,
    {
        let next_write = (self.write_pos + 1) % BUFFER_SIZE;
        if next_write != self.read_pos {
            self.buffer[self.write_pos] = key;
            self.write_pos = next_write;
            proof {
                assert(self@.len() == old(self)@.len() + 1);
                assert forall|i: int| 0 <= i < self@.len() implies #[trigger] self@[i] == old(self)@.push(key)[i] by {
                    if i < old(self)@.len() {
                        assert((old(self).read_pos + i) % 256 != old(self).write_pos as int);
                    } else {
                        assert((old(self).read_pos + i) % 256 == old(self).write_pos as int);
                    }
                }
                assert(self@ =~= old(self)@.push(key));
            }
        } else {
            assert(old(self)@.len() == 255);
        }
    }

    /// Removes and returns the oldest key.
    pub fn pop(&mut self) -> (r: Option<Key>)
        requires
            old(self).wf(),
        ensures
            final(self).wf(),
            old(self)@.len() == 0 ==> r is None && final(self)@ == old(self)@,
            old(self)@.len() > 0 ==> r == Some(old(self)@[0]) && final(self)@ == old(self)@.drop_first(),
    {
        if self.read_pos == self.write_pos {
            return None;
        }
        let key = self.buffer[self.read_pos];
        self.read_pos = (self.read_pos + 1) % BUFFER_SIZE;
        proof {
            assert(self@.len() == old(self)@.len() - 1);
            assert forall|i: int| 0 <= i < self@.len() implies #[trigger] self@[i] == old(self)@.drop_first()[i] by {
                assert((self.read_pos + i) % 256 == (old(self).read_pos + (i + 1)) % 256);
            }
            assert(self@ =~= old(self)@.drop_first());
        }
        Some(key)
    }

    /// Number of keys waiting.
    pub fn len(&self) -> (r: usize)
        requires
            self.wf(),
        ensures
            r == self@.len(),
    {
        if self.write_pos >= self.read_pos {
            self.write_pos - self.read_pos
        } else {
            BUFFER_SIZE - self.read_pos + self.write_pos
        }
    }
}

/// Keyboard driver: decodes scancodes into buffered keys.
pub struct KeyboardDriver {
    buffer: KeyboardBuffer,
}

impl KeyboardDriver {
    pub closed spec fn wf(&self) -> bool {
        self.buffer.wf()
    }

    /// Keys waiting to be read, oldest first.
    pub closed spec fn view(&self) -> Seq<Key> {
        self.buffer@
    }

    /// Creates a driver with an empty buffer.
    pub fn new() -> (d: Self)
        ensures
            d.wf(),
            d@ == Seq::<Key>::empty(),
    {
        KeyboardDriver { buffer: KeyboardBuffer::new() }
    }

    /// Decodes a scancode-set-2 make code to a key.
    pub fn decode_scancode(&self, scancode: u8) -> (r: Option<Key>)
        ensures
            r == scancode_key(scancode),
    {
        match scancode {
            0x1C => Some(Key::A),
            0x32 => Some(Key::B),
            0x21 => Some(Key::C),
            0x23 => Some(Key::D),
            0x24 => Some(Key::E),
            0x2B => Some(Key::F),
            0x34 => Some(Key::G),
            0x33 => Some(Key::H),
            0x43 => Some(Key::I),
            0x3B => Some(Key::J),
            0x42 => Some(Key::K),
            0x4B => Some(Key::L),
            0x3A => Some(Key::M),
            0x31 => Some(Key::N),
            0x44 => Some(Key::O),
            0x4D => Some(Key::P),
            0x15 => Some(Key::Q),
            0x2D => Some(Key::R),
            0x1B => Some(Key::S),
            0x2C => Some(Key::T),
            0x3C => Some(Key::U),
            0x2A => Some(Key::V),
            0x1D => Some(Key::W),
            0x35 => Some(Key::Y),
            0x1A => Some(Key::Z),
            0x29 => Some(Key::Space),
            0x5A => Some(Key::Enter),
            0x66 => Some(Key::Backspace),
            0x0D => Some(Key::Tab),
            0x76 => Some(Key::Escape),
            _ => None,
        }
    }

    /// Handles one keyboard interrupt whose data-port byte is `scancode`.
    pub fn handle_interrupt(&mut self, scancode: u8)
        requires
            old(self).wf(),
        ensures
            final(self).wf(),
            match scancode_key(scancode) {
                Some(k) => if old(self)@.len() < 255 {
                    final(self)@ == old(self)@.push(k)
                } else {
                    final(self)@ == old(self)@
                },
                None => final(self)@ == old(self)@,
            },
    {
        if let Some(key) = self.decode_scancode(scancode) {
            self.buffer.push(key);
        }
    }

    /// Reads the oldest key from the buffer.
    pub fn read_key(&mut self) -> (r: Option<Key>)
        requires
            old(self).wf(),
        ensures
            final(self).wf(),
            old(self)@.len() == 0 ==> r is None && final(self)@ == old(self)@,
            old(self)@.len() > 0 ==> r == Some(old(self)@[0]) && final(self)@ == old(self)@.drop_first(),
    {
        self.buffer.pop()
    }

    /// Whether keys are waiting.
    pub fn has_keys(&self) -> (r: bool)
        requires
            self.wf(),
        ensures
            r == (self@.len() > 0),
    {
        self.buffer.len() > 0
    }
}

/// The keyboard interrupt: the driver handles the byte read from the data
/// port.
pub fn handle_keyboard_interrupt(driver: &mut KeyboardDriver, scancode: u8)
    requires
        old(driver).wf(),
    ensures
        final(driver).wf(),
        match scancode_key(scancode) {
            Some(k) => if old(driver)@.len() < 255 {
                final(driver)@ == old(driver)@.push(k)
            } else {
                final(driver)@ == old(driver)@
            },
            None => final(driver)@ == old(driver)@,
        },
{
    driver.handle_interrupt(scancode);
}

} // verus!
