use vstd::prelude::*;

verus! {

/// The key that a logical key event stands for.
#[derive(Clone, Copy, Debug, PartialEq, Eq, Structural)]
pub enum KeyCode {
    Char(char),
    Up,
    Down,
    PageUp,
    PageDown,
    Home,
    End,
    Esc,
}

/// A logical key event, the same whichever input path produced it.
/// `ctrl` marks a control combination (Ctrl+C is `Char('c')` with `ctrl`);
/// `press` is true for a fresh press, the only kind the session acts on.
#[derive(Clone, Copy, Debug, PartialEq, Eq, Structural)]
pub struct KeyEvent {
    pub code: KeyCode,
    pub ctrl: bool,
    pub press: bool,
}

pub open spec fn pressed(code: KeyCode, ctrl: bool) -> KeyEvent {
    KeyEvent { code, ctrl, press: true }
}

impl KeyEvent {
    /// A fresh press of `code`, without modifiers.
    pub fn new(code: KeyCode) -> (r: KeyEvent)
        ensures
            r == pressed(code, false),
    {
        KeyEvent { code, ctrl: false, press: true }
    }

    /// A fresh press of `code` with the control modifier.
    pub fn with_ctrl(code: KeyCode) -> (r: KeyEvent)
        ensures
            r == pressed(code, true),
    {
        KeyEvent { code, ctrl: true, press: true }
    }
}

pub const ESC: u8 = 0x1B;
pub const CSI: u8 = 0x5B;
pub const ARROW_UP: u8 = 0x41;
pub const ARROW_DOWN: u8 = 0x42;
pub const PAGE_UP: u8 = 0x35;
pub const PAGE_DOWN: u8 = 0x36;
pub const TILDE: u8 = 0x7E;
pub const ETX: u8 = 0x03;

/// The event that a lone byte outside any escape sequence gives, if any.
pub open spec fn plain_key(b: u8) -> Option<KeyEvent> {
    if b == ETX {
        Some(pressed(KeyCode::Char('c'), true))
    } else if b == 0x71 || b == 0x51 {
        Some(pressed(KeyCode::Char('q'), false))
    } else if b == 0x61 || b == 0x41 {
        Some(pressed(KeyCode::Char('a'), false))
    } else if b == 0x66 || b == 0x46 {
        Some(pressed(KeyCode::Char('f'), false))
    } else if b == 0x63 || b == 0x43 {
        Some(pressed(KeyCode::Char('c'), false))
    } else {
        None
    }
}

pub open spec fn opt_seq(e: Option<KeyEvent>) -> Seq<KeyEvent> {
    match e {
        Some(k) => seq![k],
        None => Seq::empty(),
    }
}

/// The events that a whole byte stream decodes to, read greedily from the front.
/// An escape byte followed by anything but `[` is an Escape key (the byte after it
/// goes with it); an escape byte at the end of the stream is an Escape key; an
/// unknown or unfinished sequence after `ESC [` gives nothing.
pub open spec fn decode_bytes(s: Seq<u8>) -> Seq<KeyEvent>
    decreases s.len(),
{
    if s.len() == 0 {
        Seq::empty()
    } else if s[0] == ESC {
        if s.len() == 1 {
            seq![pressed(KeyCode::Esc, false)]
        } else if s[1] != CSI {
            seq![pressed(KeyCode::Esc, false)] + decode_bytes(s.skip(2))
        } else if s.len() == 2 {
            Seq::empty()
        } else if s[2] == ARROW_UP {
            seq![pressed(KeyCode::Up, false)] + decode_bytes(s.skip(3))
        } else if s[2] == ARROW_DOWN {
            seq![pressed(KeyCode::Down, false)] + decode_bytes(s.skip(3))
        } else if s[2] == PAGE_UP || s[2] == PAGE_DOWN {
            if s.len() == 3 {
                Seq::empty()
            } else if s[3] == TILDE {
                let code = if s[2] == PAGE_UP { KeyCode::PageUp } else { KeyCode::PageDown };
                seq![pressed(code, false)] + decode_bytes(s.skip(4))
            } else {
                decode_bytes(s.skip(4))
            }
        } else {
            decode_bytes(s.skip(3))
        }
    } else {
        opt_seq(plain_key(s[0])) + decode_bytes(s.skip(1))
    }
}

/// Where the decoder stands between two bytes.
#[derive(Clone, Copy, Debug, PartialEq, Eq, Structural)]
pub enum DecoderState {
    Ground,
    Escape,
    Csi,
    /// `ESC [ 5` (`up`) or `ESC [ 6` was read; a `~` completes the page key.
    Page(bool),
}

/// The bytes of an unfinished sequence that a state holds.
pub open spec fn pending(st: DecoderState) -> Seq<u8> {
    match st {
        DecoderState::Ground => Seq::empty(),
        DecoderState::Escape => seq![ESC],
        DecoderState::Csi => seq![ESC, CSI],
        DecoderState::Page(up) => seq![ESC, CSI, if up { PAGE_UP } else { PAGE_DOWN }],
    }
}

/// One step of the decoder: the next state and the event that the byte completes.
pub open spec fn step(st: DecoderState, b: u8) -> (DecoderState, Option<KeyEvent>) {
    match st {
        DecoderState::Ground => {
            if b == ESC {
                (DecoderState::Escape, None)
            } else {
                (DecoderState::Ground, plain_key(b))
            }
        },
        DecoderState::Escape => {
            if b == CSI {
                (DecoderState::Csi, None)
            } else {
                (DecoderState::Ground, Some(pressed(KeyCode::Esc, false)))
            }
        },
        DecoderState::Csi => {
            if b == ARROW_UP {
                (DecoderState::Ground, Some(pressed(KeyCode::Up, false)))
            } else if b == ARROW_DOWN {
                (DecoderState::Ground, Some(pressed(KeyCode::Down, false)))
            } else if b == PAGE_UP {
                (DecoderState::Page(true), None)
            } else if b == PAGE_DOWN {
                (DecoderState::Page(false), None)
            } else {
                (DecoderState::Ground, None)
            }
        },
        DecoderState::Page(up) => {
            if b == TILDE {
                let code = if up { KeyCode::PageUp } else { KeyCode::PageDown };
                (DecoderState::Ground, Some(pressed(code, false)))
            } else {
                (DecoderState::Ground, None)
            }
        },
    }
}

/// The event that the end of the stream completes in a state.
pub open spec fn finish(st: DecoderState) -> Option<KeyEvent> {
    match st {
        DecoderState::Escape => Some(pressed(KeyCode::Esc, false)),
        _ => None,
    }
}

/// A stream decoder fed one byte at a time agrees with `decode_bytes` on the
/// whole stream: the byte `b` fed in state `st`, followed by any `rest`, decodes
/// to the event of that step and then to what the new state and `rest` decode to.
pub proof fn lemma_step_agrees(st: DecoderState, b: u8, rest: Seq<u8>)
    ensures
        decode_bytes(pending(st) + seq![b] + rest) == opt_seq(step(st, b).1) + decode_bytes(
            pending(step(st, b).0) + rest,
        ),
{
    let s = pending(st) + seq![b] + rest;
    let (nst, ev) = step(st, b);
    match st {
        DecoderState::Ground => {
            assert(s =~= seq![b] + rest);
            if b == ESC {
                assert(pending(nst) + rest =~= s);
                assert(opt_seq(ev) + decode_bytes(s) =~= decode_bytes(s));
            } else {
                assert(s.skip(1) =~= rest);
                assert(pending(nst) + rest =~= rest);
            }
        },
        DecoderState::Escape => {
            if b == CSI {
                assert(pending(nst) + rest =~= s);
                assert(opt_seq(ev) + decode_bytes(s) =~= decode_bytes(s));
            } else {
                assert(s.skip(2) =~= rest);
                assert(pending(nst) + rest =~= rest);
            }
        },
        DecoderState::Csi => {
            if b == PAGE_UP || b == PAGE_DOWN {
                assert(pending(nst) + rest =~= s);
                assert(opt_seq(ev) + decode_bytes(s) =~= decode_bytes(s));
            } else {
                assert(s.skip(3) =~= rest);
                assert(pending(nst) + rest =~= rest);
                if b != ARROW_UP && b != ARROW_DOWN {
                    assert(opt_seq(ev) + decode_bytes(rest) =~= decode_bytes(rest));
                }
            }
        },
        DecoderState::Page(up) => {
            assert(s.skip(4) =~= rest);
            assert(pending(nst) + rest =~= rest);
            if b != TILDE {
                assert(opt_seq(ev) + decode_bytes(rest) =~= decode_bytes(rest));
            }
        },
    }
}

/// What the end of the stream completes agrees with `decode_bytes` on the bytes
/// still pending.
pub proof fn lemma_finish_agrees(st: DecoderState)
    ensures
        decode_bytes(pending(st)) == opt_seq(finish(st)),
{
    let p = pending(st);
    if let DecoderState::Page(up) = st {
        assert(p.len() == 3);
    }
}

/// Decodes raw terminal bytes into logical key events, one byte at a time.
pub struct EscapeDecoder {
    pub state: DecoderState,
}

impl EscapeDecoder {
    pub fn new() -> (r: EscapeDecoder)
        ensures
            r.state == DecoderState::Ground,
    {
        EscapeDecoder { state: DecoderState::Ground }
    }

    /// Feeds one byte; returns the event it completes, if any.
    pub fn feed(&mut self, b: u8) -> (r: Option<KeyEvent>)
        ensures
            (final(self).state, r) == step(old(self).state, b),
    {
        let (nst, ev) = match self.state {
            DecoderState::Ground => {
                if b == ESC {
                    (DecoderState::Escape, None)
                } else {
                    (DecoderState::Ground, plain_event(b))
                }
            },
            DecoderState::Escape => {
                if b == CSI {
                    (DecoderState::Csi, None)
                } else {
                    (DecoderState::Ground, Some(KeyEvent::new(KeyCode::Esc)))
                }
            },
            DecoderState::Csi => {
                if b == ARROW_UP {
                    (DecoderState::Ground, Some(KeyEvent::new(KeyCode::Up)))
                } else if b == ARROW_DOWN {
                    (DecoderState::Ground, Some(KeyEvent::new(KeyCode::Down)))
                } else if b == PAGE_UP {
                    (DecoderState::Page(true), None)
                } else if b == PAGE_DOWN {
                    (DecoderState::Page(false), None)
                } else {
                    (DecoderState::Ground, None)
                }
            },
            DecoderState::Page(up) => {
                if b == TILDE {
                    let code = if up { KeyCode::PageUp } else { KeyCode::PageDown };
                    (DecoderState::Ground, Some(KeyEvent::new(code)))
                } else {
                    (DecoderState::Ground, None)
                }
            },
        };
        self.state = nst;
        ev
    }

    /// The event that the end of the stream completes (a pending lone escape).
    pub fn finish(&self) -> (r: Option<KeyEvent>)
        ensures
            r == finish(self.state),
    {
        match self.state {
            DecoderState::Escape => Some(KeyEvent::new(KeyCode::Esc)),
            _ => None,
        }
    }
}

fn plain_event(b: u8) -> (r: Option<KeyEvent>)
    ensures
        r == plain_key(b),
{
    if b == ETX {
        Some(KeyEvent::with_ctrl(KeyCode::Char('c')))
    } else if b == 0x71 || b == 0x51 {
        Some(KeyEvent::new(KeyCode::Char('q')))
    } else if b == 0x61 || b == 0x41 {
        Some(KeyEvent::new(KeyCode::Char('a')))
    } else if b == 0x66 || b == 0x46 {
        Some(KeyEvent::new(KeyCode::Char('f')))
    } else if b == 0x63 || b == 0x43 {
        Some(KeyEvent::new(KeyCode::Char('c')))
    } else {
        None
    }
}

/// Decodes a complete byte stream (its end included) into key events.
pub fn decode_keys(bytes: &[u8]) -> (r: Vec<KeyEvent>)
    ensures
        r@ == decode_bytes(bytes@),
{
    let mut dec = EscapeDecoder::new();
    let mut out: Vec<KeyEvent> = Vec::new();
    let mut i: usize = 0;
    proof {
        assert(pending(dec.state) + bytes@.skip(0) =~= bytes@);
        assert(out@ + decode_bytes(bytes@) =~= decode_bytes(bytes@));
    }
    while i < bytes.len()
        invariant
            0 <= i <= bytes@.len(),
            decode_bytes(bytes@) == out@ + decode_bytes(pending(dec.state) + bytes@.skip(i as int)),
        decreases bytes@.len() - i,
    {
        let b = bytes[i];
        proof {
            lemma_step_agrees(dec.state, b, bytes@.skip(i + 1));
            assert(bytes@.skip(i as int) =~= seq![b] + bytes@.skip(i + 1));
            assert(pending(dec.state) + bytes@.skip(i as int) =~= pending(dec.state) + seq![b]
                + bytes@.skip(i + 1));
        }
        let ghost before = out@;
        let ghost st = dec.state;
        let ev = dec.feed(b);
        match ev {
            Some(k) => {
                out.push(k);
            },
            None => {},
        }
        proof {
            assert(out@ =~= before + opt_seq(step(st, b).1));
            assert(bytes@.skip(i + 1) =~= bytes@.skip((i + 1) as int));
        }
        i = i + 1;
    }
    proof {
        lemma_finish_agrees(dec.state);
        assert(pending(dec.state) + bytes@.skip(i as int) =~= pending(dec.state));
    }
    let ghost before = out@;
    match dec.finish() {
        Some(k) => {
            out.push(k);
        },
        None => {},
    }
    proof {
        assert(out@ =~= before + opt_seq(finish(dec.state)));
    }
    out
}

/// Where the session reads its key events from, fixed for the whole session.
#[derive(Clone, Copy, Debug, PartialEq, Eq, Structural)]
pub enum InputPath {
    /// The terminal's own event source
    TerminalEvents,
    /// Raw bytes of the controlling terminal device, through `EscapeDecoder`
    DeviceBytes,
}

/// The key source for a session: the terminal's events when standard input is
/// a terminal, else the terminal device's bytes (standard input carries the
/// piped lines).
pub fn select_input_path(stdin_is_tty: bool) -> (r: InputPath)
    ensures
        r == if stdin_is_tty {
            InputPath::TerminalEvents
        } else {
            InputPath::DeviceBytes
        },
{
    if stdin_is_tty {
        InputPath::TerminalEvents
    } else {
        InputPath::DeviceBytes
    }
}

} // verus!
