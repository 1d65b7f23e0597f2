//! Navigation state of present mode: which slide shows, pending jump digits,
//! and whether the viewer asked to quit.

use vstd::prelude::*;
use crate::text::{dec_seq, is_digit, all_digits, digits_val, parse_unsigned_spec, parse_unsigned, chars_of, push_char, push_chars, usize_chars};
use super::{Presentation, Slide};

verus! {

/// A key press, as navigation sees it.
#[derive(Debug, Clone, Copy, PartialEq, Eq, Structural)]
pub enum Key {
    Char(char),
    Enter,
    Esc,
    Left,
    Right,
    Home,
    End,
    Backspace,
    /// Any key navigation ignores.
    Other,
}

/// Application state for present mode.
pub struct PresentApp {
    pub presentation: Presentation,
    pub current_slide: usize,
    pub should_quit: bool,
    /// Directory that relative chart sources are resolved against.
    pub base_dir: String,
    /// Digits typed so far for a jump to a slide.
    pub input_buffer: String,
}

/// The part of the state that keys change.
pub struct NavState {
    pub current: int,
    pub quit: bool,
    pub buffer: Seq<char>,
}

/// Index of the last slide of `n` (0 when there are none).
pub open spec fn last_index(n: nat) -> int {
    if n == 0 {
        0
    } else {
        n - 1
    }
}

/// The slide a jump lands on: typed numbers are 1-based, 0 means the first
/// slide, larger numbers the last; an unreadable number leaves `current`.
pub open spec fn jump_target(buffer: Seq<char>, n: nat, current: int) -> int {
    match parse_unsigned_spec(buffer, usize::MAX as nat) {
        Some(k) => if k == 0 {
            0
        } else if k - 1 < last_index(n) {
            k - 1
        } else {
            last_index(n)
        },
        None => current,
    }
}

/// A key with no jump digits pending.
pub open spec fn plain_key(s: NavState, k: Key, n: nat) -> NavState {
    let forward = k == Key::Right || k == Key::Char('l') || k == Key::Char(' ') || k == Key::Enter;
    let back = k == Key::Left || k == Key::Char('h') || k == Key::Backspace;
    if k == Key::Char('q') || k == Key::Esc {
        NavState { quit: true, ..s }
    } else if forward {
        if s.current < last_index(n) {
            NavState { current: s.current + 1, ..s }
        } else {
            s
        }
    } else if back {
        if s.current > 0 {
            NavState { current: s.current - 1, ..s }
        } else {
            s
        }
    } else if k == Key::Home || k == Key::Char('g') {
        NavState { current: 0, ..s }
    } else if k == Key::Char('G') || k == Key::End {
        NavState { current: last_index(n), ..s }
    } else if k matches Key::Char(c) && is_digit(c) {
        NavState { buffer: s.buffer.push(k->Char_0), ..s }
    } else {
        s
    }
}

/// A key press on a presentation of `n` slides.
pub open spec fn key_spec(s: NavState, k: Key, n: nat) -> NavState {
    let cleared = NavState { buffer: Seq::empty(), ..s };
    if s.buffer.len() == 0 {
        plain_key(s, k, n)
    } else if k matches Key::Char(c) && is_digit(c) {
        NavState { buffer: s.buffer.push(k->Char_0), ..s }
    } else if k == Key::Enter {
        NavState { current: jump_target(s.buffer, n, s.current), ..cleared }
    } else if k == Key::Esc {
        cleared
    } else {
        plain_key(cleared, k, n)
    }
}

/// The footer text: `"3/10"`, or `"→12 (3/10)"` while digits are pending.
pub open spec fn indicator_spec(current: nat, n: nat, buffer: Seq<char>) -> Seq<char> {
    let pos = dec_seq(current + 1) + seq!['/'] + dec_seq(n);
    if buffer.len() == 0 {
        pos
    } else {
        seq!['→'] + buffer + seq![' ', '('] + pos + seq![')']
    }
}

impl PresentApp {
    pub open spec fn nav(&self) -> NavState {
        NavState {
            current: self.current_slide as int,
            quit: self.should_quit,
            buffer: self.input_buffer@,
        }
    }

    pub open spec fn slide_count(&self) -> nat {
        self.presentation.slides@.len()
    }

    pub fn new(presentation: Presentation, base_dir: String) -> (r: Self)
        ensures
            r.presentation == presentation,
            r.base_dir == base_dir,
            r.current_slide == 0,
            !r.should_quit,
            r.input_buffer@ == Seq::<char>::empty(),
    {
        PresentApp { presentation, current_slide: 0, should_quit: false, base_dir, input_buffer: String::new() }
    }

    fn last_slide(&self) -> (r: usize)
        ensures r == last_index(self.slide_count()),
    {
        let n = self.presentation.slides.len();
        if n == 0 {
            0
        } else {
            n - 1
        }
    }

    fn plain_key(&mut self, key: Key)
        ensures
            final(self).presentation == old(self).presentation,
            final(self).base_dir == old(self).base_dir,
            final(self).nav() == plain_key(old(self).nav(), key, old(self).slide_count()),
    {
        let last = self.last_slide();
        match key {
            Key::Char('q') | Key::Esc => {
                self.should_quit = true;
            },
            Key::Right | Key::Char('l') | Key::Char(' ') | Key::Enter => {
                if self.current_slide < last {
                    self.current_slide = self.current_slide + 1;
                }
            },
            Key::Left | Key::Char('h') | Key::Backspace => {
                if self.current_slide > 0 {
                    self.current_slide = self.current_slide - 1;
                }
            },
            Key::Home | Key::Char('g') => {
                self.current_slide = 0;
            },
            Key::Char('G') | Key::End => {
                self.current_slide = last;
            },
            Key::Char(c) => {
                if '0' <= c && c <= '9' {
                    push_char(&mut self.input_buffer, c);
                }
            },
            _ => {},
        }
    }

    /// Handles one key press.
    pub fn handle_key(&mut self, key: Key)
        ensures
            final(self).presentation == old(self).presentation,
            final(self).base_dir == old(self).base_dir,
            final(self).nav() == key_spec(old(self).nav(), key, old(self).slide_count()),
    {
        if !self.input_buffer.as_str().is_empty() {
            match key {
                Key::Char(c) => {
                    if '0' <= c && c <= '9' {
                        push_char(&mut self.input_buffer, c);
                        return;
                    }
                },
                Key::Enter => {
                    self.execute_jump();
                    return;
                },
                Key::Esc => {
                    self.input_buffer = String::new();
                    return;
                },
                _ => {},
            }
            self.input_buffer = String::new();
        }
        self.plain_key(key);
    }

    /// Jumps to the slide the pending digits name (1-based) and clears them.
    fn execute_jump(&mut self)
        ensures
            final(self).presentation == old(self).presentation,
            final(self).base_dir == old(self).base_dir,
            final(self).should_quit == old(self).should_quit,
            final(self).input_buffer@ == Seq::<char>::empty(),
            final(self).current_slide as int == jump_target(
                old(self).input_buffer@,
                old(self).slide_count(),
                old(self).current_slide as int,
            ),
    {
        let digits = chars_of(self.input_buffer.as_str());
        match parse_unsigned(digits.as_slice(), usize::MAX) {
            Some(n) => {
                let max = self.last_slide();
                self.current_slide = if n == 0 {
                    0
                } else if n - 1 < max {
                    n - 1
                } else {
                    max
                };
            },
            None => {},
        }
        self.input_buffer = String::new();
    }

    /// The slide on screen, if any.
    pub fn current_slide(&self) -> (r: Option<&Slide>)
        ensures
            r == (if self.current_slide < self.slide_count() {
                Some(&self.presentation.slides@[self.current_slide as int])
            } else {
                None
            }),
    {
        if self.current_slide < self.presentation.slides.len() {
            Some(&self.presentation.slides[self.current_slide])
        } else {
            None
        }
    }

    /// The footer's position text.
    pub fn slide_indicator(&self) -> (r: String)
        requires
            self.current_slide < usize::MAX,
        ensures
            r@ == indicator_spec(self.current_slide as nat, self.slide_count(), self.input_buffer@),
    {
        let mut pos = String::new();
        let cur = usize_chars(self.current_slide + 1);
        push_chars(&mut pos, cur.as_slice());
        push_char(&mut pos, '/');
        let total = usize_chars(self.presentation.slides.len());
        push_chars(&mut pos, total.as_slice());
        assert(pos@ =~= dec_seq(self.current_slide as nat + 1) + seq!['/'] + dec_seq(self.slide_count()));
        if self.input_buffer.as_str().is_empty() {
            pos
        } else {
            let mut r = String::new();
            push_char(&mut r, '→');
            let digits = chars_of(self.input_buffer.as_str());
            push_chars(&mut r, digits.as_slice());
            push_char(&mut r, ' ');
            push_char(&mut r, '(');
            let p = chars_of(pos.as_str());
            push_chars(&mut r, p.as_slice());
            push_char(&mut r, ')');
            assert(r@ =~= indicator_spec(self.current_slide as nat, self.slide_count(), self.input_buffer@));
            r
        }
    }
}

// ---------------------------------------------------------------------------
// Laws

/// Navigation never leaves the presentation: from a slide in range, any key
/// leaves the current slide in range (0 when there are no slides).
pub proof fn law_navigation_stays_in_range(s: NavState, k: Key, n: nat)
    requires
        0 <= s.current <= last_index(n),
    ensures
        0 <= key_spec(s, k, n).current <= last_index(n),
{
}

/// Moving forward and then back returns to the same slide, when no jump is
/// pending and the current slide is not the last.
pub proof fn law_next_then_previous(s: NavState, n: nat)
    requires
        s.buffer.len() == 0,
        0 <= s.current < last_index(n),
    ensures
        key_spec(key_spec(s, Key::Right, n), Key::Left, n).current == s.current,
{
}

/// `q` and `Esc` quit when no jump is pending.
pub proof fn law_quit_keys(s: NavState, n: nat)
    requires
        s.buffer.len() == 0,
    ensures
        key_spec(s, Key::Char('q'), n).quit,
        key_spec(s, Key::Esc, n).quit,
{
}

/// A run of key presses, one after another.
pub open spec fn keys_spec(s: NavState, keys: Seq<Key>, n: nat) -> NavState
    decreases keys.len(),
{
    if keys.len() == 0 {
        s
    } else {
        key_spec(keys_spec(s, keys.drop_last(), n), keys.last(), n)
    }
}

/// The key presses that type the characters of `ds`.
pub open spec fn typed_keys(ds: Seq<char>) -> Seq<Key>
    decreases ds.len(),
{
    if ds.len() == 0 {
        Seq::empty()
    } else {
        typed_keys(ds.drop_last()).push(Key::Char(ds.last()))
    }
}

proof fn lemma_typing_digits(s: NavState, ds: Seq<char>, n: nat)
    requires
        s.buffer.len() == 0,
        ds.len() >= 1,
        all_digits(ds),
    ensures
        keys_spec(s, typed_keys(ds), n) == (NavState { buffer: ds, ..s }),
    decreases ds.len(),
{
    assert(typed_keys(ds).drop_last() =~= typed_keys(ds.drop_last()));
    assert(typed_keys(ds).last() == Key::Char(ds.last()));
    let d = ds.last();
    assert(is_digit(ds[ds.len() - 1]));
    assert(d != 'q' && d != 'l' && d != ' ' && d != 'h' && d != 'g' && d != 'G');
    if ds.len() == 1 {
        assert(typed_keys(ds.drop_last()) =~= Seq::<Key>::empty());
        assert(keys_spec(s, typed_keys(ds.drop_last()), n) == s);
        assert(s.buffer.push(d) =~= ds);
        assert(plain_key(s, Key::Char(d), n) == (NavState { buffer: s.buffer.push(d), ..s }));
    } else {
        assert forall|i: int| 0 <= i < ds.drop_last().len() implies is_digit(#[trigger] ds.drop_last()[i]) by {
            assert(ds.drop_last()[i] == ds[i]);
            assert(is_digit(ds[i]));
        }
        lemma_typing_digits(s, ds.drop_last(), n);
        assert(ds.drop_last().push(d) =~= ds);
    }
}

/// Typing the digits of a number `k` (one or more, fitting in `usize`) with
/// no jump pending, then `Enter`, jumps to slide `k` counted from 1: `0` to
/// the first slide and numbers past the end to the last; the pending digits
/// are cleared and the viewer keeps running.
pub proof fn law_digits_then_enter_jump(s: NavState, ds: Seq<char>, n: nat)
    requires
        s.buffer.len() == 0,
        ds.len() >= 1,
        all_digits(ds),
        digits_val(ds) <= usize::MAX,
    ensures
        ({
            let r = keys_spec(s, typed_keys(ds).push(Key::Enter), n);
            let k = digits_val(ds);
            &&& r.current == (if k == 0 {
                0
            } else if k - 1 < last_index(n) {
                k - 1
            } else {
                last_index(n)
            })
            &&& r.buffer.len() == 0
            &&& r.quit == s.quit
        }),
{
    lemma_typing_digits(s, ds, n);
    assert(typed_keys(ds).push(Key::Enter).drop_last() =~= typed_keys(ds));
    assert(typed_keys(ds).push(Key::Enter).last() == Key::Enter);
    assert(is_digit(ds[0]));
    assert(ds[0] != '+');
    assert(parse_unsigned_spec(ds, usize::MAX as nat) == Some(digits_val(ds)));
}

/// With no jump pending, `g` and `Home` go to the first slide and `G` and
/// `End` to the last.
pub proof fn law_first_and_last_keys(s: NavState, n: nat)
    requires
        s.buffer.len() == 0,
    ensures
        key_spec(s, Key::Char('g'), n).current == 0,
        key_spec(s, Key::Home, n).current == 0,
        key_spec(s, Key::Char('G'), n).current == last_index(n),
        key_spec(s, Key::End, n).current == last_index(n),
{
}


/// With no jump pending, the vim-style keys act as the arrows: `h` as Left
/// and `l` as Right. Left (and so `h` and Backspace) goes back one slide
/// unless on the first, Right (and so `l`, Space and Enter) forward one
/// unless on the last; neither quits nor leaves digits pending.
pub proof fn law_vim_keys_move_like_arrows(s: NavState, n: nat)
    requires
        s.buffer.len() == 0,
    ensures
        key_spec(s, Key::Char('h'), n) == key_spec(s, Key::Left, n),
        key_spec(s, Key::Backspace, n) == key_spec(s, Key::Left, n),
        key_spec(s, Key::Char('l'), n) == key_spec(s, Key::Right, n),
        key_spec(s, Key::Char(' '), n) == key_spec(s, Key::Right, n),
        key_spec(s, Key::Enter, n) == key_spec(s, Key::Right, n),
        key_spec(s, Key::Left, n).current == (if s.current > 0 { s.current - 1 } else { s.current }),
        key_spec(s, Key::Right, n).current
            == (if s.current < last_index(n) { s.current + 1 } else { s.current }),
        key_spec(s, Key::Left, n).quit == s.quit,
        key_spec(s, Key::Right, n).quit == s.quit,
        key_spec(s, Key::Left, n).buffer.len() == 0,
        key_spec(s, Key::Right, n).buffer.len() == 0,
{
}

} // verus!
