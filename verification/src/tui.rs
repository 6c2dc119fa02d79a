//! The interactive picker of `skillctl use`: its state, and what each key
//! does to it. Drawing and reading keys is the application's part.

use vstd::prelude::*;
use crate::error::Error;
use crate::id::SkillId;
use crate::text::{
    ascii_lower_seq, chars_of, concat, contains_chars, contains_seq, join, join_seq, lower_chars,
    push_char, push_str, substring, views,
};
use crate::types::Tier;

verus! {

/// One skill offered by the picker.
#[derive(Debug)]
pub struct Candidate {
    pub id: SkillId,
    pub summary: String,
    pub languages: Vec<String>,
    pub tags: Vec<String>,
    /// The project enables it now.
    pub enabled: bool,
    /// Its tier now, when it is enabled.
    pub tier: Option<Tier>,
}

/// A key press that the picker reacts to.
#[derive(Clone, Copy, Debug, PartialEq, Eq, Structural)]
pub enum Key {
    Esc,
    Enter,
    Up,
    Down,
    Backspace,
    Char(char),
    Other,
}

/// Whether the picker goes on after a key.
#[derive(Clone, Copy, Debug, PartialEq, Eq, Structural)]
pub enum Flow {
    Continue,
    Done,
}

/// The picker's state.
pub struct App {
    /// Every candidate, in display order.
    pub items: Vec<Candidate>,
    /// The indices of the candidates that pass the filter, increasing.
    pub visible: Vec<usize>,
    /// The highlighted row of the visible list.
    pub row: Option<usize>,
    /// Which candidates are marked for enabling.
    pub selected: Vec<bool>,
    /// Which candidates are marked as core.
    pub core_tagged: Vec<bool>,
    /// The filter text.
    pub filter: String,
    /// The user gave up.
    pub cancelled: bool,
}

/// A candidate passes the (lower-cased) filter `q`: `q` is empty or occurs
/// in its id, its summary or one of its tags, compared in ASCII lower case.
pub open spec fn passes_filter(c: Candidate, q: Seq<char>) -> bool {
    ||| q.len() == 0
    ||| contains_seq(ascii_lower_seq(c.id.text()), q)
    ||| contains_seq(ascii_lower_seq(c.summary@), q)
    ||| exists|k: int|
        0 <= k < c.tags@.len() && contains_seq(ascii_lower_seq(#[trigger] c.tags@[k]@), q)
}

/// `c` is a control character (general category `Cc`), as
/// `char::is_control` tells.
pub open spec fn control(c: char) -> bool {
    c <= '\u{1f}' || ('\u{7f}' <= c && c <= '\u{9f}')
}

/// Whether `c` is a control character.
pub fn is_control(c: char) -> (b: bool)
    ensures
        b == control(c),
{
    c <= '\u{1f}' || ('\u{7f}' <= c && c <= '\u{9f}')
}

impl App {
    /// The state's invariant: one mark of each kind per candidate, visible
    /// indices in range and increasing, and a highlighted row exactly when
    /// the visible list is not empty.
    pub open spec fn wf(&self) -> bool {
        &&& self.selected@.len() == self.items@.len()
        &&& self.core_tagged@.len() == self.items@.len()
        &&& forall|k: int| 0 <= k < self.visible@.len() ==> #[trigger] self.visible@[k] < self.items@.len()
        &&& forall|a: int, b: int|
            0 <= a < b < self.visible@.len() ==> #[trigger] self.visible@[a] < #[trigger] self.visible@[b]
        &&& (self.row is Some <==> self.visible@.len() > 0)
        &&& self.row matches Some(r) ==> r < self.visible@.len()
    }

    /// The candidates marked as core are marked for enabling.
    pub open spec fn core_within_selected(&self) -> bool {
        forall|i: int| 0 <= i < self.items@.len() && #[trigger] self.core_tagged@[i] ==> self.selected@[i]
    }

    /// The candidate under the highlight.
    pub open spec fn cursor_spec(&self) -> Option<usize> {
        match self.row {
            Some(r) => if r < self.visible@.len() {
                Some(self.visible@[r as int])
            } else {
                None
            },
            None => None,
        }
    }

    /// `next` is this state with the highlight moved `delta` rows, wrapping
    /// around the visible list.
    pub open spec fn cursor_moved(&self, next: App, delta: int) -> bool {
        &&& next.items == self.items
        &&& next.visible == self.visible
        &&& next.selected == self.selected
        &&& next.core_tagged == self.core_tagged
        &&& next.filter == self.filter
        &&& next.cancelled == self.cancelled
        &&& self.visible@.len() == 0 ==> next.row == self.row
        &&& self.visible@.len() > 0 ==> next.row == Some(
            ((match self.row {
                Some(r) => r as int,
                None => 0,
            } + delta) % (self.visible@.len() as int)) as usize,
        )
    }

    /// `next` is this state with the highlighted candidate's enabling mark
    /// flipped; dropping it drops the core mark too.
    pub open spec fn select_toggled(&self, next: App) -> bool {
        &&& next.items == self.items
        &&& next.visible == self.visible
        &&& next.row == self.row
        &&& next.filter == self.filter
        &&& next.cancelled == self.cancelled
        &&& match self.cursor_spec() {
            None => next.selected == self.selected && next.core_tagged == self.core_tagged,
            Some(i) => if self.selected@[i as int] {
                next.selected@ == self.selected@.update(i as int, false) && next.core_tagged@
                    == self.core_tagged@.update(i as int, false)
            } else {
                next.selected@ == self.selected@.update(i as int, true) && next.core_tagged
                    == self.core_tagged
            },
        }
    }

    /// `next` is this state with the highlighted candidate's core mark
    /// flipped; setting it sets the enabling mark too.
    pub open spec fn core_toggled(&self, next: App) -> bool {
        &&& next.items == self.items
        &&& next.visible == self.visible
        &&& next.row == self.row
        &&& next.filter == self.filter
        &&& next.cancelled == self.cancelled
        &&& match self.cursor_spec() {
            None => next.selected == self.selected && next.core_tagged == self.core_tagged,
            Some(i) => if self.core_tagged@[i as int] {
                next.core_tagged@ == self.core_tagged@.update(i as int, false) && next.selected
                    == self.selected
            } else {
                next.selected@ == self.selected@.update(i as int, true) && next.core_tagged@
                    == self.core_tagged@.update(i as int, true)
            },
        }
    }

    /// `next` shows, under its own filter, exactly the candidates of this
    /// state that pass it, with the first row highlighted; marks are kept.
    pub open spec fn refiltered(&self, next: App) -> bool {
        &&& next.items == self.items
        &&& next.selected == self.selected
        &&& next.core_tagged == self.core_tagged
        &&& next.cancelled == self.cancelled
        &&& next.row == (if next.visible@.len() == 0 {
            None::<usize>
        } else {
            Some(0usize)
        })
        &&& forall|i: int|
            0 <= i < next.items@.len() ==> (next.visible@.contains(i as usize) <==> passes_filter(
                next.items@[i],
                ascii_lower_seq(next.filter@),
            ))
    }

    /// The picker over `items`: each enabled candidate marked, each core one
    /// marked as core, everything visible, the first row highlighted.
    pub fn new(items: Vec<Candidate>) -> (app: App)
        ensures
            app.wf(),
            app.items == items,
            forall|i: int| 0 <= i < items@.len() ==> #[trigger] app.selected@[i] == items@[i].enabled,
            forall|i: int|
                0 <= i < items@.len() ==> #[trigger] app.core_tagged@[i] == (items@[i].tier == Some(
                    Tier::Core,
                )),
            app.visible@.len() == items@.len(),
            forall|k: int| 0 <= k < items@.len() ==> #[trigger] app.visible@[k] == k,
            app.filter@.len() == 0,
            !app.cancelled,
    {
        let n = items.len();
        let mut selected: Vec<bool> = Vec::new();
        let mut core_tagged: Vec<bool> = Vec::new();
        let mut visible: Vec<usize> = Vec::new();
        let mut i: usize = 0;
        while i < n
            invariant
                0 <= i <= n,
                n == items@.len(),
                selected@.len() == i,
                core_tagged@.len() == i,
                visible@.len() == i,
                forall|k: int| 0 <= k < i ==> #[trigger] selected@[k] == items@[k].enabled,
                forall|k: int|
                    0 <= k < i ==> #[trigger] core_tagged@[k] == (items@[k].tier == Some(Tier::Core)),
                forall|k: int| 0 <= k < i ==> #[trigger] visible@[k] == k,
            decreases n - i,
        {
            selected.push(items[i].enabled);
            let core = match items[i].tier {
                Some(Tier::Core) => true,
                _ => false,
            };
            core_tagged.push(core);
            visible.push(i);
            i = i + 1;
        }
        let row = if n > 0 {
            Some(0)
        } else {
            None
        };
        App { items, visible, row, selected, core_tagged, filter: String::new(), cancelled: false }
    }

    /// Whether candidate `i` passes the current filter.
    fn passes(&self, i: usize, q: &Vec<char>) -> (b: bool)
        requires
            i < self.items@.len(),
        ensures
            b == passes_filter(self.items@[i as int], q@),
    {
        if q.len() == 0 {
            return true;
        }
        let c = &self.items[i];
        let id_text = c.id.to_string();
        if contains_chars(lower_chars(id_text.as_str()).as_slice(), q.as_slice()) {
            return true;
        }
        if contains_chars(lower_chars(c.summary.as_str()).as_slice(), q.as_slice()) {
            return true;
        }
        let mut k: usize = 0;
        while k < c.tags.len()
            invariant
                0 <= k <= c.tags@.len(),
                i < self.items@.len(),
                *c == self.items@[i as int],
                q@.len() > 0,
                !contains_seq(ascii_lower_seq(c.id.text()), q@),
                !contains_seq(ascii_lower_seq(c.summary@), q@),
                forall|j: int| 0 <= j < k ==> !contains_seq(ascii_lower_seq(#[trigger] c.tags@[j]@), q@),
            decreases c.tags@.len() - k,
        {
            if contains_chars(lower_chars(c.tags[k].as_str()).as_slice(), q.as_slice()) {
                proof {
                    let t = self.items@[i as int];
                    assert(t.tags@[k as int] == c.tags@[k as int]);
                    assert(contains_seq(ascii_lower_seq(t.tags@[k as int]@), q@));
                }
                return true;
            }
            k = k + 1;
        }
        false
    }

    /// Recomputes the visible list from the filter and highlights its first
    /// row.
    pub fn refresh_filter(&mut self)
        requires
            old(self).wf(),
        ensures
            final(self).wf(),
            final(self).filter == old(self).filter,
            old(self).refiltered(*final(self)),
    {
        let q = lower_chars(self.filter.as_str());
        let n = self.items.len();
        let mut visible: Vec<usize> = Vec::new();
        let mut i: usize = 0;
        while i < n
            invariant
                0 <= i <= n,
                n == self.items@.len(),
                q@ == ascii_lower_seq(self.filter@),
                forall|k: int| 0 <= k < visible@.len() ==> #[trigger] visible@[k] < i,
                forall|a: int, b: int|
                    0 <= a < b < visible@.len() ==> #[trigger] visible@[a] < #[trigger] visible@[b],
                forall|j: int|
                    0 <= j < i ==> (visible@.contains(j as usize) <==> passes_filter(
                        #[trigger] self.items@[j],
                        q@,
                    )),
            decreases n - i,
        {
            let keep = self.passes(i, &q);
            let ghost before = visible@;
            if keep {
                visible.push(i);
            }
            proof {
                assert forall|j: int| 0 <= j <= i implies (visible@.contains(j as usize) <==> passes_filter(
                    #[trigger] self.items@[j],
                    q@,
                )) by {
                    if j < i {
                        if visible@.contains(j as usize) {
                            let k = choose|k: int| 0 <= k < visible@.len() && visible@[k] == j as usize;
                            if keep && k == before.len() {
                            } else {
                                assert(before[k] == j as usize);
                            }
                        }
                        if before.contains(j as usize) {
                            let k = choose|k: int| 0 <= k < before.len() && before[k] == j as usize;
                            assert(visible@[k] == j as usize);
                        }
                    } else {
                        if keep {
                            assert(visible@[before.len() as int] == i);
                        } else if visible@.contains(j as usize) {
                            let k = choose|k: int| 0 <= k < visible@.len() && visible@[k] == j as usize;
                            assert(before[k] < i);
                        }
                    }
                }
            }
            i = i + 1;
        }
        self.row = if visible.len() == 0 {
            None
        } else {
            Some(0)
        };
        self.visible = visible;
    }

    /// The candidate under the highlight.
    pub fn cursor(&self) -> (r: Option<usize>)
        ensures
            r == self.cursor_spec(),
    {
        match self.row {
            Some(v) => if v < self.visible.len() {
                Some(self.visible[v])
            } else {
                None
            },
            None => None,
        }
    }

    /// Moves the highlight `delta` rows, wrapping around the visible list.
    pub fn move_cursor(&mut self, delta: isize)
        requires
            old(self).wf(),
        ensures
            final(self).wf(),
            old(self).cursor_moved(*final(self), delta as int),
    {
        if self.visible.len() == 0 {
            return;
        }
        let len = self.visible.len();
        let cur: usize = match self.row {
            Some(r) => r,
            None => 0,
        };
        let m = len as i128;
        let x = cur as i128 + delta as i128;
        let new: i128 = if x >= 0 {
            x % m
        } else {
            let y = -x - 1;
            proof {
                lemma_euclid_negative(x as int, m as int);
            }
            m - 1 - (y % m)
        };
        proof {
            assert(0 <= new < m);
        }
        self.row = Some(new as usize);
    }

    /// Marks or unmarks the highlighted candidate for enabling; unmarking
    /// also drops its core mark.
    pub fn toggle_select(&mut self)
        requires
            old(self).wf(),
        ensures
            final(self).wf(),
            old(self).select_toggled(*final(self)),
    {
        if let Some(idx) = self.cursor() {
            if self.selected[idx] {
                self.selected.set(idx, false);
                self.core_tagged.set(idx, false);
            } else {
                self.selected.set(idx, true);
            }
        }
    }

    /// Marks or unmarks the highlighted candidate as core; marking it as
    /// core also marks it for enabling.
    pub fn toggle_core(&mut self)
        requires
            old(self).wf(),
        ensures
            final(self).wf(),
            old(self).core_toggled(*final(self)),
    {
        if let Some(idx) = self.cursor() {
            if self.core_tagged[idx] {
                self.core_tagged.set(idx, false);
            } else {
                self.selected.set(idx, true);
                self.core_tagged.set(idx, true);
            }
        }
    }
}

impl App {
    /// The picker over `items`, refused when there is nothing to pick.
    pub fn open(items: Vec<Candidate>) -> (r: Result<App, Error>)
        ensures
            items@.len() == 0 ==> (r matches Err(Error::Other(m)) && m@
                == "no candidates available; run `skillctl add` first"@),
            items@.len() > 0 ==> (r matches Ok(app) && app.wf() && app.items == items),
    {
        if items.len() == 0 {
            return Err(Error::Other("no candidates available; run `skillctl add` first".to_owned()));
        }
        Ok(App::new(items))
    }

    /// The filter text without its last character.
    fn filter_popped(&self) -> (r: String)
        ensures
            r@ == (if self.filter@.len() > 0 {
                self.filter@.drop_last()
            } else {
                self.filter@
            }),
    {
        let cs = chars_of(self.filter.as_str());
        if cs.len() == 0 {
            return String::new();
        }
        substring(cs.as_slice(), 0, cs.len() - 1)
    }

    /// Reacts to one key press, as the picker's key bindings say: `Esc`
    /// (or `q` with an empty filter) cancels, `Enter` saves, the arrows
    /// move the highlight, `Space` and `c` (with an empty filter) flip the
    /// marks, `/` clears the filter, `Backspace` shortens it, and any other
    /// printable character extends it.
    pub fn handle_key(&mut self, key: Key) -> (flow: Flow)
        requires
            old(self).wf(),
        ensures
            final(self).wf(),
            old(self).core_within_selected() ==> final(self).core_within_selected(),
            match key {
                Key::Esc => flow == Flow::Done && final(self).cancelled && final(self).items
                    == old(self).items && final(self).selected == old(self).selected
                    && final(self).core_tagged == old(self).core_tagged,
                Key::Enter => flow == Flow::Done && *final(self) == *old(self),
                Key::Up => flow == Flow::Continue && old(self).cursor_moved(*final(self), -1),
                Key::Down => flow == Flow::Continue && old(self).cursor_moved(*final(self), 1),
                Key::Backspace => flow == Flow::Continue && final(self).filter@ == (if old(
                    self,
                ).filter@.len() > 0 {
                    old(self).filter@.drop_last()
                } else {
                    old(self).filter@
                }) && old(self).refiltered(*final(self)),
                Key::Char(ch) => if old(self).filter@.len() == 0 && ch == 'q' {
                    flow == Flow::Done && final(self).cancelled && final(self).items == old(
                        self,
                    ).items && final(self).selected == old(self).selected
                        && final(self).core_tagged == old(self).core_tagged
                } else if old(self).filter@.len() == 0 && ch == ' ' {
                    flow == Flow::Continue && old(self).select_toggled(*final(self))
                } else if old(self).filter@.len() == 0 && ch == 'c' {
                    flow == Flow::Continue && old(self).core_toggled(*final(self))
                } else if ch == '/' {
                    flow == Flow::Continue && final(self).filter@.len() == 0 && final(self).items
                        == old(self).items && final(self).visible == old(self).visible
                        && final(self).row == old(self).row && final(self).selected == old(
                        self,
                    ).selected && final(self).core_tagged == old(self).core_tagged
                        && final(self).cancelled == old(self).cancelled
                } else if !control(ch) {
                    flow == Flow::Continue && final(self).filter@ == old(self).filter@.push(ch)
                        && old(self).refiltered(*final(self))
                } else {
                    flow == Flow::Continue && *final(self) == *old(self)
                },
                Key::Other => flow == Flow::Continue && *final(self) == *old(self),
            },
    {
        let empty = self.filter.as_str().is_empty();
        match key {
            Key::Esc => {
                self.cancelled = true;
                Flow::Done
            },
            Key::Enter => Flow::Done,
            Key::Up => {
                self.move_cursor(-1);
                Flow::Continue
            },
            Key::Down => {
                self.move_cursor(1);
                Flow::Continue
            },
            Key::Backspace => {
                self.filter = self.filter_popped();
                self.refresh_filter();
                Flow::Continue
            },
            Key::Char(ch) => {
                if empty && ch == 'q' {
                    self.cancelled = true;
                    Flow::Done
                } else if empty && ch == ' ' {
                    self.toggle_select();
                    Flow::Continue
                } else if empty && ch == 'c' {
                    self.toggle_core();
                    Flow::Continue
                } else if ch == '/' {
                    self.filter = String::new();
                    Flow::Continue
                } else if !is_control(ch) {
                    push_char(&mut self.filter, ch);
                    self.refresh_filter();
                    Flow::Continue
                } else {
                    Flow::Continue
                }
            },
            Key::Other => Flow::Continue,
        }
    }
}

/// The ids of the candidates among the first `n` that are marked for
/// enabling and whose core mark is `want_core`, in order.
pub open spec fn picked(items: Seq<Candidate>, sel: Seq<bool>, core: Seq<bool>, want_core: bool, n: int) -> Seq<SkillId>
    decreases n,
{
    if n <= 0 {
        Seq::empty()
    } else {
        let prev = picked(items, sel, core, want_core, n - 1);
        if sel[n - 1] && core[n - 1] == want_core {
            prev.push(items[n - 1].id)
        } else {
            prev
        }
    }
}

impl App {
    /// The outcome of the picker: cancelled, or the ids to enable as core
    /// and as extra, in display order.
    pub fn finish(&self) -> (r: Result<(Vec<SkillId>, Vec<SkillId>), Error>)
        requires
            self.wf(),
        ensures
            self.cancelled ==> (r matches Err(Error::Other(m)) && m@ == "cancelled"@),
            !self.cancelled ==> (r matches Ok((core, extra)) && core@ == picked(
                self.items@,
                self.selected@,
                self.core_tagged@,
                true,
                self.items@.len() as int,
            ) && extra@ == picked(
                self.items@,
                self.selected@,
                self.core_tagged@,
                false,
                self.items@.len() as int,
            )),
    {
        if self.cancelled {
            return Err(Error::Other("cancelled".to_owned()));
        }
        let mut core: Vec<SkillId> = Vec::new();
        let mut extra: Vec<SkillId> = Vec::new();
        let mut i: usize = 0;
        while i < self.items.len()
            invariant
                0 <= i <= self.items@.len(),
                self.wf(),
                core@ == picked(self.items@, self.selected@, self.core_tagged@, true, i as int),
                extra@ == picked(self.items@, self.selected@, self.core_tagged@, false, i as int),
            decreases self.items@.len() - i,
        {
            if self.selected[i] {
                if self.core_tagged[i] {
                    core.push(self.items[i].id.clone());
                } else {
                    extra.push(self.items[i].id.clone());
                }
            }
            i = i + 1;
        }
        Ok((core, extra))
    }
}

/// Flipping either mark keeps every core candidate marked for enabling.
pub proof fn law_toggles_keep_core_within_selected(a: App, b: App)
    requires
        a.wf(),
        a.core_within_selected(),
        a.select_toggled(b) || a.core_toggled(b),
    ensures
        b.core_within_selected(),
{
    assert forall|i: int| 0 <= i < b.items@.len() && #[trigger] b.core_tagged@[i] implies b.selected@[i] by {
        match a.cursor_spec() {
            None => {},
            Some(c) => {
                if i != c as int {
                    assert(a.core_tagged@[i]);
                }
            },
        }
    }
}

/// Euclid's remainder of a negative `x`, through the remainder of `-x - 1`.
proof fn lemma_euclid_negative(x: int, m: int)
    requires
        x < 0,
        m > 0,
    ensures
        m - 1 - ((-x - 1) % m) == x % m,
        0 <= (-x - 1) % m < m,
{
    let y = -x - 1;
    vstd::arithmetic::div_mod::lemma_fundamental_div_mod(y, m);
    vstd::arithmetic::div_mod::lemma_mod_bound(y, m);
    let q = y / m;
    let r = y % m;
    assert(x == (-q - 1) * m + (m - 1 - r)) by (nonlinear_arith)
        requires
            y == m * q + r,
            x == -y - 1,
    ;
    vstd::arithmetic::div_mod::lemma_mod_multiples_vanish(-q - 1, m - 1 - r, m);
    vstd::arithmetic::div_mod::lemma_small_mod((m - 1 - r) as nat, m as nat);
}

/// The mark of a row: `[C]` for a candidate marked as core, `[x]` for one
/// marked for enabling, `[ ]` otherwise.
pub open spec fn row_mark_of(core: bool, selected: bool) -> Seq<char> {
    if core {
        "[C]"@
    } else if selected {
        "[x]"@
    } else {
        "[ ]"@
    }
}

/// The text after a candidate's id: its languages in brackets, comma
/// separated, or nothing when it names none.
pub open spec fn language_suffix_of(langs: Seq<Seq<char>>) -> Seq<char> {
    if langs.len() == 0 {
        Seq::empty()
    } else {
        " ("@ + join_seq(langs, ","@) + ")"@
    }
}

/// The picker's title: the filter, with a hint while it is empty.
pub open spec fn title_of(filter: Seq<char>) -> Seq<char> {
    "skillctl use — filter: "@ + filter + if filter.len() == 0 {
        " (type to filter)"@
    } else {
        Seq::empty()
    }
}

impl App {
    /// The mark of candidate `idx`.
    pub fn row_mark(&self, idx: usize) -> (r: &'static str)
        requires
            self.wf(),
            idx < self.items@.len(),
        ensures
            r@ == row_mark_of(self.core_tagged@[idx as int], self.selected@[idx as int]),
    {
        if self.core_tagged[idx] {
            "[C]"
        } else if self.selected[idx] {
            "[x]"
        } else {
            "[ ]"
        }
    }

    /// The title line.
    pub fn title(&self) -> (r: String)
        ensures
            r@ == title_of(self.filter@),
    {
        let mut t = concat("skillctl use — filter: ", self.filter.as_str());
        if self.filter.as_str().is_empty() {
            push_str(&mut t, " (type to filter)");
        } else {
            proof {
                assert(t@ + Seq::<char>::empty() =~= t@);
            }
        }
        t
    }
}

/// The text after a candidate's id in its row.
pub fn language_suffix(c: &Candidate) -> (r: String)
    ensures
        r@ == language_suffix_of(views(c.languages@)),
{
    if c.languages.len() == 0 {
        String::new()
    } else {
        let mut t = concat(" (", join(c.languages.as_slice(), ",").as_str());
        push_str(&mut t, ")");
        t
    }
}

/// After the filter is refreshed, a candidate is shown exactly when the
/// filter is empty or, compared in ASCII lower case, occurs in its id, in
/// its summary or in one of its tags.
pub proof fn law_filter_shows_matches(a: App, b: App)
    requires
        a.refiltered(b),
    ensures
        forall|i: int|
            0 <= i < b.items@.len() ==> (#[trigger] b.visible@.contains(i as usize) <==> {
                let wanted = ascii_lower_seq(b.filter@);
                let cand = b.items@[i];
                ||| wanted.len() == 0
                ||| contains_seq(ascii_lower_seq(cand.id.text()), wanted)
                ||| contains_seq(ascii_lower_seq(cand.summary@), wanted)
                ||| exists|t: int|
                    0 <= t < cand.tags@.len() && contains_seq(
                        ascii_lower_seq(#[trigger] cand.tags@[t]@),
                        wanted,
                    )
            }),
{
}

} // verus!