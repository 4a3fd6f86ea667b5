//! Keys.

use vstd::prelude::*;

verus! {

/// The keys that mean something.
#[derive(Clone, Copy, Debug, PartialEq, Eq, Structural)]
pub enum Key {
    Char(char),
    Enter,
    Esc,
    Up,
    Down,
    Left,
    Right,
    PageUp,
    PageDown,
    Home,
    Other,
}

/// A key that was pressed, and whether control was held.
#[derive(Clone, Copy, Debug, PartialEq, Eq, Structural)]
pub struct KeyPress {
    pub key: Key,
    pub control: bool,
}

/// The key ends the program: q, escape, or control-c.
pub open spec fn quits(press: KeyPress) -> bool {
    press.key == Key::Char('q') || (press.key == Key::Char('c') && press.control) || press.key
        == Key::Esc
}

/// Whether the key ends the program.
pub fn should_quit(press: &KeyPress) -> (r: bool)
    ensures
        r == quits(*press),
{
    match press.key {
        Key::Char(c) => c == 'q' || (c == 'c' && press.control),
        Key::Esc => true,
        _ => false,
    }
}

/// The key leaves a screen: q or escape.
pub open spec fn leaves(key: Key) -> bool {
    key == Key::Char('q') || key == Key::Esc
}

/// The key confirms: enter, or a line end.
pub open spec fn confirms(key: Key) -> bool {
    key == Key::Enter || key == Key::Char('\n') || key == Key::Char('\r')
}

/// The place that a digit from 1 to 9 stands for, counted from zero.
pub open spec fn digit_place(key: Key) -> Option<nat> {
    match key {
        Key::Char(c) => if '1' <= c <= '9' {
            Some((c as int - '1' as int) as nat)
        } else {
            None
        },
        _ => None,
    }
}

/// Whether the key leaves a screen.
pub fn is_leave(key: Key) -> (r: bool)
    ensures
        r == leaves(key),
{
    match key {
        Key::Char(c) => c == 'q',
        Key::Esc => true,
        _ => false,
    }
}

/// Whether the key confirms.
pub fn is_confirm(key: Key) -> (r: bool)
    ensures
        r == confirms(key),
{
    match key {
        Key::Char(c) => c == '\n' || c == '\r',
        Key::Enter => true,
        _ => false,
    }
}

/// The place that a digit from 1 to 9 stands for, counted from zero.
pub fn digit_index(key: Key) -> (r: Option<usize>)
    ensures
        match r {
            Some(i) => digit_place(key) == Some(i as nat) && i < 9,
            None => digit_place(key) is None,
        },
{
    match key {
        Key::Char(c) => if '1' <= c && c <= '9' {
            Some((c as u32 - '1' as u32) as usize)
        } else {
            None
        },
        _ => None,
    }
}

// ─── Laws ──────────────────────────────────────────────────────────────

/// The program ends with `q`, with escape, and with control and `c`, but not with
/// `c` alone; `q` and escape leave a screen; enter and both line ends confirm.
pub proof fn law_keys_that_leave_and_confirm(c: char, control: bool)
    ensures
        quits(KeyPress { key: Key::Char(c), control }) <==> c == 'q' || (c == 'c' && control),
        quits(KeyPress { key: Key::Esc, control }),
        !quits(KeyPress { key: Key::Enter, control }),
        !quits(KeyPress { key: Key::Left, control }) && !quits(
            KeyPress { key: Key::Right, control },
        ),
        !quits(KeyPress { key: Key::Up, control }) && !quits(KeyPress { key: Key::Down, control }),
        leaves(Key::Char(c)) <==> c == 'q',
        leaves(Key::Esc) && !leaves(Key::Enter),
        !leaves(Key::Up) && !leaves(Key::Down) && !leaves(Key::Left) && !leaves(Key::Right),
        confirms(Key::Char(c)) <==> c == '\n' || c == '\r',
        confirms(Key::Enter) && !confirms(Key::Esc),
        !confirms(Key::Up) && !confirms(Key::Down) && !confirms(Key::Left) && !confirms(Key::Right),
{
}

/// The digits from 1 to 9 stand for the first nine places, in order; no other key
/// stands for a place.
pub proof fn law_digits_stand_for_places(i: nat, c: char)
    requires
        i < 9,
    ensures
        digit_place(Key::Char("123456789"@[i as int])) == Some(i),
        !(49 <= c as u32 <= 57) ==> digit_place(Key::Char(c)) is None,
        digit_place(Key::Enter) is None && digit_place(Key::Up) is None,
{
    reveal_strlit("123456789");
    let all = "123456789"@;
    assert(all[0] == '1' && all[1] == '2' && all[2] == '3' && all[3] == '4' && all[4] == '5');
    assert(all[5] == '6' && all[6] == '7' && all[7] == '8' && all[8] == '9');
}

} // verus!
