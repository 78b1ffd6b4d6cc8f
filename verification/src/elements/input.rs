//! The editing state of a text input: where its cursor is, and how keys and pasted text change
//! the text it holds.
use vstd::prelude::*;
use crate::strings::str_get;
use crate::text::buffer_line::{BufferLine, grapheme_start};
use crate::text::document::{Text, input_texts, is_plain_text, plain_lines};
use crate::text::styles::ends_fit;
use crate::unicode::{grapheme_split, utf8_len};

verus! {

/// A simple text input that allows for multi-line input: its placeholder, whether the
/// placeholder is shown, and the cursor as (grapheme, line).
#[derive(Debug)]
pub struct Input {
    pub placeholder: String,
    pub visible_placeholder: bool,
    pub cursor: (usize, usize),
}

/// Character index of grapheme `g` of `line`, or the end of the line past its last grapheme.
pub open spec fn cursor_char(line: Seq<char>, g: usize) -> int {
    if g < grapheme_split(line).len() { grapheme_start(line, g as int) } else { line.len() as int }
}

impl Input {
    /// A new input showing `placeholder`, its cursor at the start.
    pub fn with_placeholder(placeholder: &str) -> (r: Self)
        ensures
            r.placeholder@ == placeholder@,
            r.visible_placeholder,
            r.cursor == (0usize, 0usize),
    {
        Input { placeholder: placeholder.to_owned(), visible_placeholder: true, cursor: (0, 0) }
    }

    /// Starts a new line after the cursor's line and moves the cursor to its start. Typing
    /// over the placeholder first replaces it by two empty lines.
    pub(crate) fn add_new_line(&mut self, text: &mut Text, terminal_rows: Option<u16>)
        requires
            old(self).cursor.1 < usize::MAX,
            !old(self).visible_placeholder ==> old(self).cursor.1 + 1 <= old(text).input@.len(),
        ensures
            final(self).cursor == (0usize, (old(self).cursor.1 + 1) as usize),
            !final(self).visible_placeholder,
            final(self).placeholder@ == old(self).placeholder@,
            old(self).visible_placeholder ==> is_plain_text(*final(text), seq!['\n'], terminal_rows),
            !old(self).visible_placeholder ==> {
                &&& input_texts(final(text).input@) == input_texts(old(text).input@).insert(old(self).cursor.1 + 1, seq![])
                &&& final(text).visual@ == old(text).visual@
                &&& final(text).styles@ == old(text).styles@
                &&& final(text).cursor == old(text).cursor
                &&& final(text).wrap == old(text).wrap
            },
    {
        self.cursor.0 = 0;
        self.cursor.1 = self.cursor.1 + 1;
        if self.visible_placeholder {
            *text = Text::plain("\n", terminal_rows);
            proof {
                reveal_strlit("\n");
                assert("\n"@ =~= seq!['\n']);
            }
            self.visible_placeholder = false;
        } else {
            let ghost before = text.input@;
            let line = BufferLine::default();
            let ghost l = line;
            text.input.insert(self.cursor.1, line);
            proof {
                assert(input_texts(text.input@) =~= input_texts(before).insert(self.cursor.1 as int, seq![]));
            }
        }
    }

    /// Inserts `char` at the cursor and moves the cursor past it. Typing over the placeholder
    /// first replaces it by an empty line.
    pub(crate) fn add_char(&mut self, char: char, text: &mut Text, terminal_rows: Option<u16>)
        requires
            old(self).cursor.0 < usize::MAX,
            old(self).visible_placeholder ==> old(self).cursor.1 == 0,
            !old(self).visible_placeholder ==> old(self).cursor.1 < old(text).input@.len(),
        ensures
            final(self).cursor == ((old(self).cursor.0 + 1) as usize, old(self).cursor.1),
            !final(self).visible_placeholder,
            final(self).placeholder@ == old(self).placeholder@,
            ends_fit(old(text).styles@) ==> ends_fit(final(text).styles@),
            ({
                let before = if old(self).visible_placeholder { seq![seq![]] } else { input_texts(old(text).input@) };
                let y = old(self).cursor.1 as int;
                let line = before[y];
                let k = cursor_char(line, old(self).cursor.0);
                input_texts(final(text).input@) == before.update(y, line.take(k).push(char) + line.skip(k))
            }),
    {
        if self.visible_placeholder {
            *text = Text::plain("", terminal_rows);
            proof {
                reveal_strlit("");
                assert(plain_lines(""@) =~= seq![seq![]]);
            }
            self.visible_placeholder = false;
        }
        let ghost before = input_texts(text.input@);
        let y = self.cursor.1;
        proof {
            assert(before[y as int] == text.input@[y as int]@);
        }
        let index = text.input[y].grapheme_byte_or_end(self.cursor.0);
        text.input[y].insert(index, char);
        proof {
            assert(input_texts(text.input@) =~= before.update(
                y as int,
                before[y as int].take(cursor_char(before[y as int], self.cursor.0)).push(char) + before[y as int].skip(
                    cursor_char(before[y as int], self.cursor.0),
                ),
            ));
        }
        self.cursor.0 = self.cursor.0 + 1;
    }
}

/// The lines after pasting the lines `new` (two or more) at character `k` of line `y`: the
/// line is split there, its left part joins the first pasted line and its right part the last.
pub open spec fn pasted_lines(texts: Seq<Seq<char>>, y: int, k: int, new: Seq<Seq<char>>) -> Seq<Seq<char>> {
    let line = texts[y];
    let n = new.len() as int;
    texts.take(y) + seq![line.take(k) + new[0]] + new.subrange(1, n - 1) + seq![new[n - 1] + line.skip(k)] + texts.skip(y + 1)
}

impl Input {
    /// Deletes the grapheme before the cursor, joining the cursor's line to the one before it
    /// when the cursor is at its start. The placeholder shows again when a single empty line
    /// is left.
    pub(crate) fn remove_char(&mut self, text: &mut Text)
        requires
            old(self).cursor.1 < old(text).input@.len(),
            old(self).cursor.0 > 0 ==> {
                let line = input_texts(old(text).input@)[old(self).cursor.1 as int];
                &&& old(self).cursor.0 - 1 < grapheme_split(line).len()
            },
        ensures
            final(text).styles@ == old(text).styles@,
            ({
                let texts = input_texts(old(text).input@);
                let (c0, y) = old(self).cursor;
                let after = input_texts(final(text).input@);
                &&& if c0 > 0 {
                    let line = texts[y as int];
                    &&& after == texts.update(
                        y as int,
                        line.take(grapheme_start(line, c0 - 1)) + line.skip(grapheme_start(line, c0 as int)),
                    )
                    &&& final(self).cursor == ((c0 - 1) as usize, y)
                } else if y > 0 {
                    &&& after == texts.update(y - 1, texts[y - 1] + texts[y as int]).remove(y as int)
                    &&& final(self).cursor == (grapheme_split(texts[y - 1]).len() as usize, (y - 1) as usize)
                } else {
                    &&& after == texts
                    &&& final(self).cursor == old(self).cursor
                }
                &&& final(self).visible_placeholder == if after.len() == 1 && after[0].len() == 0 {
                    true
                } else {
                    old(self).visible_placeholder
                }
                &&& final(self).placeholder@ == old(self).placeholder@
            }),
    {
        let ghost texts = input_texts(text.input@);
        let y = self.cursor.1;
        if self.cursor.0 > 0 {
            self.cursor.0 = self.cursor.0 - 1;
            proof {
                assert(texts[y as int] == text.input@[y as int]@);
            }
            let _removed = text.input[y].remove(self.cursor.0);
            proof {
                assert(input_texts(text.input@) =~= texts.update(
                    y as int,
                    texts[y as int].take(grapheme_start(texts[y as int], self.cursor.0 as int)) + texts[y as int].skip(
                        grapheme_start(texts[y as int], self.cursor.0 + 1),
                    ),
                ));
            }
        } else if y > 0 {
            let ghost before = text.input@;
            let prev_line = text.input.remove(y);
            self.cursor.1 = y - 1;
            proof {
                assert(text.input@[y - 1] == before[y - 1]);
                assert(prev_line@ == texts[y as int]);
            }
            self.cursor.0 = text.input[y - 1].count();
            text.input[y - 1].push_str(prev_line.content());
            proof {
                assert(input_texts(text.input@) =~= texts.update(y - 1, texts[y - 1] + texts[y as int]).remove(y as int));
            }
        }
        if text.input.len() == 1 && text.input[0].content().is_empty() {
            self.visible_placeholder = true;
        }
    }

    /// Pastes `string` at the cursor: over the placeholder it becomes the whole text (the cursor
    /// at its end); a single line is inserted at the cursor, several lines split the cursor's
    /// line around them. The cursor ends after the pasted text.
    #[verifier::rlimit(40)]
    pub(crate) fn add_string(&mut self, string: &str, text: &mut Text, terminal_rows: Option<u16>)
        requires
            !old(self).visible_placeholder ==> {
                let texts = input_texts(old(text).input@);
                let y = old(self).cursor.1 as int;
                let new = plain_lines(string@);
                &&& y < texts.len()
                &&& old(self).cursor.0 + grapheme_split(new[0]).len() <= usize::MAX
                &&& y + new.len() <= usize::MAX
            },
        ensures
            !final(self).visible_placeholder,
            final(self).placeholder@ == old(self).placeholder@,
            ends_fit(old(text).styles@) ==> ends_fit(final(text).styles@),
            old(self).visible_placeholder ==> {
                let texts = plain_lines(string@);
                &&& is_plain_text(*final(text), string@, terminal_rows)
                &&& final(self).cursor == (grapheme_split(texts.last()).len() as usize, (texts.len() - 1) as usize)
            },
            !old(self).visible_placeholder ==> {
                let texts = input_texts(old(text).input@);
                let (c0, y) = old(self).cursor;
                let line = texts[y as int];
                let k = cursor_char(line, c0);
                let new = plain_lines(string@);
                let after = input_texts(final(text).input@);
                if new.len() == 1 {
                    &&& after == texts.update(y as int, line.take(k) + new[0] + line.skip(k))
                    &&& final(self).cursor == ((c0 + grapheme_split(new[0]).len()) as usize, y)
                } else {
                    &&& after == pasted_lines(texts, y as int, k, new)
                    &&& final(self).cursor == (grapheme_split(new.last()).len() as usize, (y + new.len() - 1) as usize)
                }
            },
    {
        if self.visible_placeholder {
            *text = Text::plain(string, terminal_rows);
            proof {
                lemma_plain_lines_nonempty(string@);
                assert(input_texts(text.input@).last() == text.input@[text.input@.len() - 1]@);
            }
            let lines_len = text.input.len();
            let final_line_len = text.input[lines_len - 1].count();
            self.cursor = (final_line_len, lines_len - 1);
            self.visible_placeholder = false;
            return;
        }
        let ghost texts = input_texts(text.input@);
        let ghost new = plain_lines(string@);
        let mut new_lines = Text::plain_input(string);
        proof {
            lemma_plain_lines_nonempty(string@);
        }
        let y = self.cursor.1;
        proof {
            assert(texts[y as int] == text.input@[y as int]@);
        }
        if new_lines.len() == 1 {
            let index = text.input[y].grapheme_byte_or_end(self.cursor.0);
            proof {
                assert(new_lines@[0]@ == new[0]);
            }
            let added = new_lines[0].count();
            text.input[y].insert_str(index, new_lines[0].content());
            self.cursor.0 = self.cursor.0 + added;
            proof {
                assert(input_texts(text.input@) =~= texts.update(
                    y as int,
                    texts[y as int].take(cursor_char(texts[y as int], old(self).cursor.0)) + new[0] + texts[y as int].skip(
                        cursor_char(texts[y as int], old(self).cursor.0),
                    ),
                ));
            }
        } else {
            let ghost line = texts[y as int];
            let ghost k = cursor_char(line, self.cursor.0);
            let old_line = text.input.remove(y);
            let mid = old_line.grapheme_byte_or_end(self.cursor.0);
            let content = old_line.content();
            let whole = content.len();
            proof {
                crate::unicode::lemma_byte_offset_end(line);
                crate::unicode::lemma_char_at_byte(line, line.len() as int);
                crate::unicode::lemma_char_at_byte(line, 0);
                assert(line.take(0) =~= Seq::<char>::empty());
                assert(whole == utf8_len(line));
            }
            proof {
                assert(crate::unicode::byte_offset(line, k) == mid);
                if k < line.len() {
                    crate::unicode::lemma_byte_offset_strict(line, k, line.len() as int);
                }
                crate::unicode::lemma_char_at_byte(line, k);
            }
            let left = str_get(content, 0, mid).unwrap();
            let right = str_get(content, mid, whole).unwrap();
            proof {
                assert(left@ == line.take(k));
                assert(right@ =~= line.skip(k));
            }
            let n = new_lines.len();
            let last_count = new_lines[n - 1].count();
            proof {
                assert(new_lines@[n - 1]@ == new.last());
            }
            self.cursor.0 = last_count;
            let first_y = y;
            let ghost base = text.input@;
            let ghost styles0 = text.styles@;
            let mut j: usize = 0;
            while new_lines.len() > 0
                invariant
                    j + new_lines@.len() == n,
                    input_texts(new_lines@) == new.skip(j as int),
                    new.len() == n,
                    base.len() + 1 == texts.len(),
                    input_texts(base) == texts.remove(y as int),
                    text.input@.len() == base.len() + j,
                    input_texts(text.input@) == input_texts(base).take(y as int) + new.take(j as int) + input_texts(base).skip(y as int),
                    y < texts.len(),
                    y + n <= usize::MAX,
                    text.styles@ == styles0,
                decreases new_lines@.len(),
            {
                let ghost nl = new_lines@;
                let l = new_lines.remove(0);
                proof {
                    assert(input_texts(nl)[0] == nl[0]@);
                    assert(input_texts(nl)[0] == new.skip(j as int)[0]);
                    assert(l@ == new[j as int]);
                    assert(input_texts(new_lines@) =~= new.skip(j + 1)) by {
                        assert(new_lines@ =~= nl.subrange(1, nl.len() as int));
                        assert forall|i: int| 0 <= i < new_lines@.len() implies #[trigger] input_texts(new_lines@)[i] == new.skip(j + 1)[i] by {
                            assert(input_texts(nl)[i + 1] == new.skip(j as int)[i + 1]);
                        }
                    }
                }
                let ghost ti = text.input@;
                text.input.insert(y + j, l);
                proof {
                    ti.insert_ensures((y + j) as int, l);
                    assert(input_texts(text.input@) =~= input_texts(base).take(y as int) + new.take(j + 1) + input_texts(base).skip(y as int)) by {
                        let a = input_texts(text.input@);
                        let b = input_texts(base).take(y as int) + new.take(j + 1) + input_texts(base).skip(y as int);
                        assert forall|i: int| 0 <= i < a.len() implies a[i] == b[i] by {
                            assert(a[i] == text.input@[i]@);
                            if i < y + j {
                                assert(text.input@[i] == ti[i]);
                                assert(input_texts(ti)[i] == ti[i]@);
                            } else if i == y + j {
                            } else {
                                assert(text.input@[i] == ti[i - 1]);
                                assert(input_texts(ti)[i - 1] == ti[i - 1]@);
                            }
                        }
                    }
                }
                j = j + 1;
            }
            self.cursor.1 = y + n - 1;
            proof {
                assert(new.take(n as int) =~= new);
                assert(input_texts(text.input@)[first_y as int] == new[0]);
                assert(input_texts(text.input@)[(y + n - 1) as int] == new[n - 1]);
                assert(text.input@[first_y as int]@ == new[0]);
                crate::unicode::lemma_char_at_byte(new[0], 0);
            }
            let ghost mid_state = input_texts(text.input@);
            if !left.is_empty() {
                text.input[first_y].insert_str(0, left);
                proof {
                    assert(new[0].take(0) =~= Seq::<char>::empty());
                    assert(new[0].skip(0) =~= new[0]);
                }
            }
            let ghost after_left = input_texts(text.input@);
            proof {
                assert(after_left =~= mid_state.update(first_y as int, line.take(k) + new[0]));
                assert(text.input@[(y + n - 1) as int]@ == after_left[(y + n - 1) as int]);
            }
            if !right.is_empty() {
                text.input[y + n - 1].push_str(right);
            }
            proof {
                assert(input_texts(text.input@) =~= after_left.update((y + n - 1) as int, new[n - 1] + line.skip(k)));
                assert(input_texts(text.input@) =~= pasted_lines(texts, y as int, k, new));
            }
        }
    }

    /// Shows the text again after an edit: the placeholder (the cursor back at the start) when
    /// it is visible, else the prepared text; then records the cursor in the text.
    pub(crate) fn process_text(&mut self, text: &mut Text, terminal_rows: Option<u16>)
        requires
            !old(self).visible_placeholder ==> ends_fit(old(text).styles@),
        ensures
            final(self).visible_placeholder == old(self).visible_placeholder,
            final(self).placeholder@ == old(self).placeholder@,
            final(self).cursor == if old(self).visible_placeholder { (0usize, 0usize) } else { old(self).cursor },
            final(text).cursor == Some(((final(self).cursor.0 as u16), (final(self).cursor.1 as u16))),
            old(self).visible_placeholder ==> input_texts(final(text).input@) == plain_lines(old(self).placeholder@),
            !old(self).visible_placeholder ==> input_texts(final(text).input@) == input_texts(old(text).input@),
    {
        if self.visible_placeholder {
            *text = Text::plain(self.placeholder.as_str(), terminal_rows);
            self.cursor = (0, 0);
        } else {
            text.prepare_text(65535, terminal_rows);
        }
        text.cursor = Some((self.cursor.0 as u16, self.cursor.1 as u16));
    }
}

/// What an input reacts to: pasted text, the Enter and Backspace keys, a key that types a
/// character, and anything else.
pub enum InputEvent {
    Paste(String),
    Enter,
    Backspace,
    Char(char),
    Other,
}

/// `c` is a control character: one of the Unicode general category Cc.
pub open spec fn is_control_char(c: char) -> bool {
    (c as u32) <= 0x1f || (0x7f <= (c as u32) && (c as u32) <= 0x9f)
}

/// Whether `c` is a control character (see [`is_control_char`]).
pub fn is_control(c: char) -> (r: bool)
    ensures
        r == is_control_char(c),
{
    c <= '\u{1f}' || ('\u{7f}' <= c && c <= '\u{9f}')
}

/// The state of `input` over the lines `texts` lets it apply `event`: the cursor stands on a
/// line and, where it moves past graphemes, on a grapheme of it.
pub open spec fn event_applies(input: Input, texts: Seq<Seq<char>>, event: InputEvent) -> bool {
    let (c0, y) = input.cursor;
    let enter_ok = y < usize::MAX && (!input.visible_placeholder ==> y + 1 <= texts.len());
    match event {
        InputEvent::Paste(s) => !input.visible_placeholder ==> {
            let new = plain_lines(s@);
            &&& y < texts.len()
            &&& c0 + grapheme_split(new[0]).len() <= usize::MAX
            &&& y + new.len() <= usize::MAX
        },
        InputEvent::Enter => enter_ok,
        InputEvent::Backspace => y < texts.len() && (c0 > 0 ==> c0 - 1 < grapheme_split(texts[y as int]).len()),
        InputEvent::Char(c) => is_control_char(c) || if c == '\n' {
            enter_ok
        } else {
            &&& c0 < usize::MAX
            &&& input.visible_placeholder ==> y == 0
            &&& !input.visible_placeholder ==> y < texts.len()
        },
        InputEvent::Other => true,
    }
}

/// The lines after typing `c` at `cursor` (grapheme, line) in `texts`.
pub open spec fn typed(texts: Seq<Seq<char>>, cursor: (usize, usize), c: char) -> Seq<Seq<char>> {
    let y = cursor.1 as int;
    let line = texts[y];
    let k = cursor_char(line, cursor.0);
    texts.update(y, line.take(k).push(c) + line.skip(k))
}

/// The lines and the cursor after Backspace at `cursor` in `texts`.
pub open spec fn backspaced(texts: Seq<Seq<char>>, cursor: (usize, usize)) -> (Seq<Seq<char>>, (usize, usize)) {
    let (c0, y) = cursor;
    if c0 > 0 {
        let line = texts[y as int];
        (
            texts.update(y as int, line.take(grapheme_start(line, c0 - 1)) + line.skip(grapheme_start(line, c0 as int))),
            ((c0 - 1) as usize, y),
        )
    } else if y > 0 {
        (
            texts.update(y - 1, texts[y - 1] + texts[y as int]).remove(y as int),
            (grapheme_split(texts[y - 1]).len() as usize, (y - 1) as usize),
        )
    } else {
        (texts, cursor)
    }
}

/// The lines and the cursor after pasting `s` at `cursor` in `texts`.
pub open spec fn pasted(texts: Seq<Seq<char>>, cursor: (usize, usize), s: Seq<char>) -> (Seq<Seq<char>>, (usize, usize)) {
    let (c0, y) = cursor;
    let line = texts[y as int];
    let k = cursor_char(line, c0);
    let new = plain_lines(s);
    if new.len() == 1 {
        (texts.update(y as int, line.take(k) + new[0] + line.skip(k)), ((c0 + grapheme_split(new[0]).len()) as usize, y))
    } else {
        (pasted_lines(texts, y as int, k, new), (grapheme_split(new.last()).len() as usize, (y + new.len() - 1) as usize))
    }
}

/// What the input shows after an edit left `lines`, `cursor` and `visible`: the placeholder
/// (cursor at the start) when it is visible, else the lines; the text records the cursor.
pub open spec fn shows(input: Input, text: Text, placeholder: Seq<char>, lines: Seq<Seq<char>>, cursor: (usize, usize), visible: bool) -> bool {
    &&& input.placeholder@ == placeholder
    &&& input.visible_placeholder == visible
    &&& input.cursor == if visible { (0usize, 0usize) } else { cursor }
    &&& input_texts(text.input@) == if visible { plain_lines(placeholder) } else { lines }
    &&& text.cursor == Some(((input.cursor.0 as u16), (input.cursor.1 as u16)))
}

impl Input {
    /// Reacts to `event` as the input's node does: a paste, Enter or Backspace edits the text
    /// and reports the event as not consumed; a typed character that is no control character is
    /// inserted (a line feed starts a new line) and the event is consumed. After an edit the
    /// text is shown again. When the cursor does not fit the text for the edit, nothing
    /// changes and the event is not consumed.
    pub fn handle(&mut self, event: &InputEvent, text: &mut Text, terminal_rows: Option<u16>) -> (r: bool)
        requires
            ends_fit(old(text).styles@),
        ensures
            r == (event_applies(*old(self), input_texts(old(text).input@), *event) && (*event matches InputEvent::Char(c) && !is_control_char(c))),
            !event_applies(*old(self), input_texts(old(text).input@), *event) ==> *final(self) == *old(self) && *final(text) == *old(text),
            event_applies(*old(self), input_texts(old(text).input@), *event) ==> {
                let texts = input_texts(old(text).input@);
                let cur = old(self).cursor;
                let vis = old(self).visible_placeholder;
                let ph = old(self).placeholder@;
                let enter_lines = if vis { plain_lines(seq!['\n']) } else { texts.insert(cur.1 + 1, seq![]) };
                let enter_cursor = (0usize, (cur.1 + 1) as usize);
                match *event {
                    InputEvent::Paste(s) => if vis {
                        let new = plain_lines(s@);
                        shows(*final(self), *final(text), ph, new, (grapheme_split(new.last()).len() as usize, (new.len() - 1) as usize), false)
                    } else {
                        shows(*final(self), *final(text), ph, pasted(texts, cur, s@).0, pasted(texts, cur, s@).1, false)
                    },
                    InputEvent::Enter => shows(*final(self), *final(text), ph, enter_lines, enter_cursor, false),
                    InputEvent::Backspace => {
                        let after = backspaced(texts, cur).0;
                        let visible = if after.len() == 1 && after[0].len() == 0 { true } else { vis };
                        shows(*final(self), *final(text), ph, after, backspaced(texts, cur).1, visible)
                    },
                    InputEvent::Char(c) => if is_control_char(c) {
                        *final(self) == *old(self) && *final(text) == *old(text)
                    } else if c == '\n' {
                        shows(*final(self), *final(text), ph, enter_lines, enter_cursor, false)
                    } else {
                        let base = if vis { seq![seq![]] } else { texts };
                        shows(*final(self), *final(text), ph, typed(base, cur, c), ((cur.0 + 1) as usize, cur.1), false)
                    },
                    InputEvent::Other => *final(self) == *old(self) && *final(text) == *old(text),
                }
            },
    {
        let y = self.cursor.1;
        let c0 = self.cursor.0;
        let enter_ok = y < usize::MAX && (self.visible_placeholder || y + 1 <= text.input.len());
        match event {
            InputEvent::Paste(s) => {
                if !self.visible_placeholder {
                    if y >= text.input.len() {
                        return false;
                    }
                    let new_lines = Text::plain_input(s.as_str());
                    proof {
                        lemma_plain_lines_nonempty(s@);
                        assert(new_lines@[0]@ == input_texts(new_lines@)[0]);
                    }
                    let added = new_lines[0].count();
                    if added > usize::MAX - c0 || new_lines.len() > usize::MAX - y {
                        return false;
                    }
                }
                self.add_string(s.as_str(), text, terminal_rows);
                self.process_text(text, terminal_rows);
                false
            },
            InputEvent::Enter => {
                if !enter_ok {
                    return false;
                }
                self.add_new_line(text, terminal_rows);
                self.process_text(text, terminal_rows);
                false
            },
            InputEvent::Backspace => {
                if y >= text.input.len() {
                    return false;
                }
                if c0 > 0 {
                    proof {
                        assert(text.input@[y as int]@ == input_texts(text.input@)[y as int]);
                    }
                    if c0 - 1 >= text.input[y].count() {
                        return false;
                    }
                }
                self.remove_char(text);
                self.process_text(text, terminal_rows);
                false
            },
            InputEvent::Char(c) => {
                let c = *c;
                if is_control(c) {
                    return false;
                }
                if c == '\n' {
                    if !enter_ok {
                        return false;
                    }
                    self.add_new_line(text, terminal_rows);
                } else {
                    if c0 == usize::MAX || (self.visible_placeholder && y != 0) || (!self.visible_placeholder && y >= text.input.len()) {
                        return false;
                    }
                    self.add_char(c, text, terminal_rows);
                }
                self.process_text(text, terminal_rows);
                true
            },
            InputEvent::Other => false,
        }
    }
}

/// A plain text has at least one line.
proof fn lemma_plain_lines_nonempty(s: Seq<char>)
    ensures
        plain_lines(s).len() >= 1,
{
    if !(s.len() == 0 || s.last() == '\n') {
        assert(s.len() > 0);
        assert(crate::text::lines::lines_of(s).len() > 0) by {
            reveal_with_fuel(crate::text::lines::lines_of, 2);
        }
    }
}

} // verus!
