//! Keyboard-focus and text-entry bookkeeping of the numeric input rows, and
//! the notice shown under a field.

use vstd::prelude::*;

use crate::model::{InputField, ValidationError, ValidationErrors};
use crate::text::push_char;

verus! {

/// Which numeric field should regain focus, have its edit buffer refreshed,
/// or shows rejected text.
#[derive(Clone, Copy, Debug, PartialEq, Eq, Structural)]
pub struct FieldFocus {
    /// Field that should receive keyboard focus on the next frame.
    pub restore: Option<InputField>,
    /// Field whose pending edit text must be dropped and re-read from its value.
    pub sync_buffer: Option<InputField>,
    /// Field whose current edit text does not parse.
    pub invalid_text: Option<InputField>,
    /// Field whose unparsable text was abandoned when it lost focus.
    pub rejected_text: Option<InputField>,
}

/// Work the interface must do for one numeric row.
#[derive(Clone, Copy, Debug, PartialEq, Eq, Structural)]
pub struct FocusActions {
    /// Drop the row's pending edit text.
    pub clear_buffer: bool,
    /// Give the row keyboard focus.
    pub request_focus: bool,
}

/// The state after observing a numeric row's text.
pub open spec fn tracked_text(
    focus: FieldFocus,
    field: InputField,
    has_focus: bool,
    text_invalid: bool,
    lost_focus: bool,
) -> FieldFocus {
    if has_focus {
        if text_invalid {
            FieldFocus { invalid_text: Some(field), rejected_text: None, ..focus }
        } else {
            FieldFocus {
                invalid_text: if focus.invalid_text == Some(field) {
                    None
                } else {
                    focus.invalid_text
                },
                rejected_text: if focus.rejected_text == Some(field) {
                    None
                } else {
                    focus.rejected_text
                },
                ..focus
            }
        }
    } else if lost_focus && focus.invalid_text == Some(field) {
        FieldFocus { invalid_text: None, rejected_text: Some(field), ..focus }
    } else {
        focus
    }
}

impl Default for FieldFocus {
    /// Nothing pending.
    fn default() -> (focus: Self)
        ensures
            focus.restore is None,
            focus.sync_buffer is None,
            focus.invalid_text is None,
            focus.rejected_text is None,
    {
        FieldFocus { restore: None, sync_buffer: None, invalid_text: None, rejected_text: None }
    }
}

impl FieldFocus {
    /// Records whether the focused row holds unparsable text, and turns such
    /// text into a rejection once the row loses focus.
    pub fn track_text(
        &mut self,
        field: InputField,
        has_focus: bool,
        text_invalid: bool,
        lost_focus: bool,
    )
        ensures
            *final(self) == tracked_text(*old(self), field, has_focus, text_invalid, lost_focus),
            final(self).restore == old(self).restore,
            final(self).sync_buffer == old(self).sync_buffer,
            has_focus && text_invalid ==> final(self).invalid_text == Some(field)
                && final(self).rejected_text is None,
            has_focus && !text_invalid ==> {
                &&& final(self).invalid_text != Some(field)
                &&& final(self).rejected_text != Some(field)
                &&& old(self).invalid_text != Some(field) ==> final(self).invalid_text
                    == old(self).invalid_text
                &&& old(self).rejected_text != Some(field) ==> final(self).rejected_text
                    == old(self).rejected_text
            },
            !has_focus && lost_focus && old(self).invalid_text == Some(field)
                ==> final(self).invalid_text is None && final(self).rejected_text == Some(field),
            !has_focus && !(lost_focus && old(self).invalid_text == Some(field)) ==> *final(self)
                == *old(self),
    {
        if has_focus {
            if text_invalid {
                self.invalid_text = Some(field);
                self.rejected_text = None;
            } else {
                if self.invalid_text == Some(field) {
                    self.invalid_text = None;
                }
                if self.rejected_text == Some(field) {
                    self.rejected_text = None;
                }
            }
        } else if lost_focus && self.invalid_text == Some(field) {
            self.invalid_text = None;
            self.rejected_text = Some(field);
        }
    }

    /// Consumes the pending buffer refresh and focus restoration of a row.
    pub fn take_pending(&mut self, field: InputField) -> (actions: FocusActions)
        ensures
            actions.clear_buffer == (old(self).sync_buffer == Some(field)),
            actions.request_focus == (old(self).restore == Some(field)),
            final(self).sync_buffer == if actions.clear_buffer {
                None
            } else {
                old(self).sync_buffer
            },
            final(self).restore == if actions.request_focus {
                None
            } else {
                old(self).restore
            },
            final(self).invalid_text == old(self).invalid_text,
            final(self).rejected_text == old(self).rejected_text,
    {
        let clear_buffer = self.sync_buffer == Some(field);
        if clear_buffer {
            self.sync_buffer = None;
        }
        let request_focus = self.restore == Some(field);
        if request_focus {
            self.restore = None;
        }
        FocusActions { clear_buffer, request_focus }
    }

    /// A row edited while focused keeps focus across the recalculation.
    pub fn note_edit(&mut self, field: InputField, changed: bool, has_focus: bool)
        ensures
            *final(self) == if changed && has_focus {
                FieldFocus { restore: Some(field), ..*old(self) }
            } else {
                *old(self)
            },
    {
        if changed && has_focus {
            self.restore = Some(field);
        }
    }

    /// When a recalculation switches between valid and invalid results, the
    /// field being restored also gets its edit text refreshed.
    pub fn after_recalculation(&mut self, was_invalid: bool, is_invalid: bool)
        ensures
            *final(self) == if was_invalid != is_invalid {
                FieldFocus { sync_buffer: old(self).restore, ..*old(self) }
            } else {
                *old(self)
            },
    {
        if was_invalid != is_invalid {
            self.sync_buffer = self.restore;
        }
    }
}

/// Observing a row's text never leaves both unparsable text and a rejected
/// entry on record: when at most one was recorded before, at most one is
/// recorded after.
pub proof fn lemma_text_states_stay_exclusive(
    focus: FieldFocus,
    field: InputField,
    has_focus: bool,
    text_invalid: bool,
    lost_focus: bool,
)
    requires
        focus.invalid_text is None || focus.rejected_text is None,
    ensures
        ({
            let next = tracked_text(focus, field, has_focus, text_invalid, lost_focus);
            next.invalid_text is None || next.rejected_text is None
        }),
{
}

/// What observing a row's text records: focused unparsable text is recorded
/// for the field and clears any rejection; focused parsable text leaves the
/// field recorded as neither unparsable nor rejected and leaves other fields'
/// records alone; unparsable text becomes a rejection when the row loses
/// focus; otherwise nothing changes. Focus restoration and buffer refresh are
/// never touched.
pub proof fn lemma_text_tracking_follows_the_row(
    focus: FieldFocus,
    field: InputField,
    has_focus: bool,
    text_invalid: bool,
    lost_focus: bool,
)
    ensures
        ({
            let next = tracked_text(focus, field, has_focus, text_invalid, lost_focus);
            &&& next.restore == focus.restore
            &&& next.sync_buffer == focus.sync_buffer
            &&& has_focus && text_invalid ==> next.invalid_text == Some(field)
                && next.rejected_text is None
            &&& has_focus && !text_invalid ==> {
                &&& next.invalid_text != Some(field)
                &&& next.rejected_text != Some(field)
                &&& focus.invalid_text != Some(field) ==> next.invalid_text == focus.invalid_text
                &&& focus.rejected_text != Some(field) ==> next.rejected_text
                    == focus.rejected_text
            }
            &&& !has_focus && lost_focus && focus.invalid_text == Some(field) ==> next.invalid_text
                is None && next.rejected_text == Some(field)
            &&& !has_focus && !(lost_focus && focus.invalid_text == Some(field)) ==> next == focus
        }),
{
}

/// The first validation problem reported for a field.
pub open spec fn first_problem(errors: Seq<ValidationError>, field: InputField) -> Option<
    ValidationError,
>
    decreases errors.len(),
{
    if errors.len() == 0 {
        None
    } else if errors[0].field == field {
        Some(errors[0])
    } else {
        first_problem(errors.drop_first(), field)
    }
}

/// The notice shown under a numeric field: unparsable text first, then a
/// rejected entry, then the first validation problem of the field.
pub open spec fn notice_text(
    focus: FieldFocus,
    field: InputField,
    errors: Option<Seq<ValidationError>>,
) -> Option<Seq<char>> {
    if focus.invalid_text == Some(field) {
        if field == InputField::ProbeColumns || field == InputField::ProbeRows {
            Some("Enter a finite whole number. This text has not been applied."@)
        } else {
            Some("Enter a finite number. This text has not been applied."@)
        }
    } else if focus.rejected_text == Some(field) {
        Some("The invalid entry was not applied; the previous value remains."@)
    } else {
        match errors {
            Some(problems) => match first_problem(problems, field) {
                Some(problem) => Some(
                    "Error: "@ + problem.message@ + " Results remain from the last valid setup."@,
                ),
                None => None,
            },
            None => None,
        }
    }
}

/// A field's notice concerns that field alone: with neither unparsable nor
/// rejected text recorded for it and no validation problem naming it, the
/// field shows no notice, whatever is recorded for other fields; a rejection
/// recorded for it, without unparsable text, shows the rejection notice.
pub proof fn lemma_notice_belongs_to_its_field(
    focus: FieldFocus,
    field: InputField,
    errors: Option<Seq<ValidationError>>,
)
    ensures
        focus.invalid_text != Some(field) && focus.rejected_text != Some(field) && (
        errors matches Some(problems) ==> forall|k: int|
            0 <= k < problems.len() ==> (#[trigger] problems[k]).field != field) ==> notice_text(
            focus,
            field,
            errors,
        ) is None,
        focus.invalid_text != Some(field) && focus.rejected_text == Some(field) ==> notice_text(
            focus,
            field,
            errors,
        ) == Some("The invalid entry was not applied; the previous value remains."@),
        focus.invalid_text == Some(field) ==> notice_text(focus, field, errors) is Some,
{
    if focus.invalid_text != Some(field) && focus.rejected_text != Some(field) {
        if let Some(problems) = errors {
            if forall|k: int| 0 <= k < problems.len() ==> (#[trigger] problems[k]).field != field {
                lemma_no_problem_for_field(problems, field);
            }
        }
    }
}

/// The first problem of a field is the earliest listed problem naming that
/// field, and there is none exactly when no listed problem names it.
pub proof fn lemma_first_problem_is_earliest(problems: Seq<ValidationError>, field: InputField)
    ensures
        first_problem(problems, field) is None <==> forall|k: int|
            0 <= k < problems.len() ==> (#[trigger] problems[k]).field != field,
        first_problem(problems, field) matches Some(problem) ==> exists|k: int|
            0 <= k < problems.len() && #[trigger] problems[k] == problem && problem.field == field
                && forall|j: int| 0 <= j < k ==> (#[trigger] problems[j]).field != field,
    decreases problems.len(),
{
    if problems.len() > 0 {
        let rest = problems.drop_first();
        lemma_first_problem_is_earliest(rest, field);
        assert forall|k: int| 1 <= k < problems.len() implies problems[k] == #[trigger] rest[k - 1] by {
        }
        if problems[0].field != field {
            if first_problem(rest, field) is None {
                assert forall|k: int| 0 <= k < problems.len() implies (
                #[trigger] problems[k]).field != field by {
                    if k > 0 {
                        assert(problems[k] == rest[k - 1]);
                    }
                }
            } else {
                let problem = first_problem(rest, field)->0;
                let k = choose|k: int|
                    0 <= k < rest.len() && #[trigger] rest[k] == problem && problem.field == field
                        && forall|j: int| 0 <= j < k ==> (#[trigger] rest[j]).field != field;
                assert(problems[k + 1] == problem);
                assert forall|j: int| 0 <= j < k + 1 implies (#[trigger] problems[j]).field
                    != field by {
                    if j > 0 {
                        assert(problems[j] == rest[j - 1]);
                    }
                }
                assert(!(forall|k: int| 0 <= k < rest.len() ==> (#[trigger] rest[k]).field != field));
                let w = choose|w: int| 0 <= w < rest.len() && (#[trigger] rest[w]).field == field;
                assert(problems[w + 1] == rest[w]);
            }
        }
    }
}

/// With no problem naming the field, no first problem is found for it.
proof fn lemma_no_problem_for_field(problems: Seq<ValidationError>, field: InputField)
    requires
        forall|k: int| 0 <= k < problems.len() ==> (#[trigger] problems[k]).field != field,
    ensures
        first_problem(problems, field) is None,
    decreases problems.len(),
{
    if problems.len() > 0 {
        assert(problems[0].field != field);
        assert forall|k: int| 0 <= k < problems.drop_first().len() implies (
        #[trigger] problems.drop_first()[k]).field != field by {
            assert(problems.drop_first()[k] == problems[k + 1]);
        }
        lemma_no_problem_for_field(problems.drop_first(), field);
    }
}

fn find_problem(errors: &[ValidationError], field: InputField) -> (found: Option<ValidationError>)
    ensures
        found == first_problem(errors@, field),
{
    let mut i: usize = 0;
    proof {
        assert(errors@.skip(0) =~= errors@);
    }
    while i < errors.len()
        invariant
            i <= errors@.len(),
            first_problem(errors@, field) == first_problem(errors@.skip(i as int), field),
        decreases errors.len() - i,
    {
        proof {
            assert(errors@.skip(i as int).drop_first() =~= errors@.skip(i + 1));
        }
        if errors[i].field == field {
            return Some(errors[i]);
        }
        i = i + 1;
    }
    None
}

impl FieldFocus {
    /// The message to show under `field`, if any.
    pub fn field_notice(&self, field: InputField, errors: Option<&ValidationErrors>) -> (notice:
        Option<String>)
        ensures
            notice matches Some(text) ==> notice_text(
                *self,
                field,
                match errors {
                    Some(problems) => Some(problems@),
                    None => None,
                },
            ) == Some(text@),
            notice is None ==> notice_text(
                *self,
                field,
                match errors {
                    Some(problems) => Some(problems@),
                    None => None,
                },
            ) is None,
            self.invalid_text != Some(field) && self.rejected_text != Some(field) && (
            errors matches Some(problems) ==> forall|k: int|
                0 <= k < problems@.len() ==> (#[trigger] problems@[k]).field != field)
                ==> notice is None,
    {
        proof {
            lemma_notice_belongs_to_its_field(
                *self,
                field,
                match errors {
                    Some(problems) => Some(problems@),
                    None => None,
                },
            );
        }
        if self.invalid_text == Some(field) {
            if field.requires_integer() {
                return Some(
                    String::from_str("Enter a finite whole number. This text has not been applied."),
                );
            } else {
                return Some(String::from_str("Enter a finite number. This text has not been applied."));
            }
        }
        if self.rejected_text == Some(field) {
            return Some(
                String::from_str("The invalid entry was not applied; the previous value remains."),
            );
        }
        match errors {
            Some(problems) => {
                match find_problem(problems.as_slice(), field) {
                    Some(problem) => {
                        let mut text = String::from_str("Error: ");
                        text.append(problem.message);
                        text.append(" Results remain from the last valid setup.");
                        Some(text)
                    },
                    None => None,
                }
            },
            None => None,
        }
    }
}

/// Whether a character has the Unicode `White_Space` property: the control
/// characters U+0009 to U+000D, the space, U+0085, the no-break space U+00A0,
/// U+1680, the typographic spaces U+2000 to U+200A, the line and paragraph
/// separators U+2028 and U+2029, U+202F, U+205F and the ideographic space U+3000.
pub open spec fn white_space(c: char) -> bool {
    let u = c as u32;
    ||| 0x9 <= u <= 0xD
    ||| u == 0x20
    ||| u == 0x85
    ||| u == 0xA0
    ||| u == 0x1680
    ||| 0x2000 <= u <= 0x200A
    ||| u == 0x2028
    ||| u == 0x2029
    ||| u == 0x202F
    ||| u == 0x205F
    ||| u == 0x3000
}

/// Tests a character for the `White_Space` property, as `char::is_whitespace`
/// does.
fn is_white_space(c: char) -> (space: bool)
    ensures
        space == white_space(c),
{
    let u: u32 = c as u32;
    (0x9 <= u && u <= 0xD) || u == 0x20 || u == 0x85 || u == 0xA0 || u == 0x1680 || (0x2000 <= u
        && u <= 0x200A) || u == 0x2028 || u == 0x2029 || u == 0x202F || u == 0x205F || u == 0x3000
}

/// The `White_Space` characters, listed one by one: tab, line feed, vertical
/// tab, form feed, carriage return, space, next line, no-break space, ogham
/// space mark, en quad to hair space, line separator, paragraph separator,
/// narrow no-break space, medium mathematical space and ideographic space.
pub proof fn lemma_white_space_characters(c: char)
    ensures
        white_space(c) <==> (c == '\t' || c == '\n' || c == '\u{b}' || c == '\u{c}' || c == '\r'
            || c == ' ' || c == '\u{85}' || c == '\u{a0}' || c == '\u{1680}' || c == '\u{2000}'
            || c == '\u{2001}' || c == '\u{2002}' || c == '\u{2003}' || c == '\u{2004}' || c
            == '\u{2005}' || c == '\u{2006}' || c == '\u{2007}' || c == '\u{2008}' || c
            == '\u{2009}' || c == '\u{200a}' || c == '\u{2028}' || c == '\u{2029}' || c
            == '\u{202f}' || c == '\u{205f}' || c == '\u{3000}'),
{
}

/// Numeric entry text with white space removed and the minus sign `−`
/// (U+2212) written as `-`.
pub open spec fn numeric_normalized(s: Seq<char>) -> Seq<char>
    decreases s.len(),
{
    if s.len() == 0 {
        Seq::empty()
    } else if white_space(s.last()) {
        numeric_normalized(s.drop_last())
    } else if s.last() == '\u{2212}' {
        numeric_normalized(s.drop_last()).push('-')
    } else {
        numeric_normalized(s.drop_last()).push(s.last())
    }
}

/// Normalized numeric text holds no white space and no typographic minus, is
/// never longer than the entry, and text holding neither comes back unchanged.
pub proof fn lemma_normalized_text_is_plain(s: Seq<char>)
    ensures
        forall|k: int|
            0 <= k < numeric_normalized(s).len() ==> {
                let c = #[trigger] numeric_normalized(s)[k];
                !white_space(c) && c != '\u{2212}'
            },
        numeric_normalized(s).len() <= s.len(),
        (forall|k: int| 0 <= k < s.len() ==> !white_space(#[trigger] s[k]) && s[k] != '\u{2212}')
            ==> numeric_normalized(s) == s,
    decreases s.len(),
{
    if s.len() > 0 {
        let prev = s.drop_last();
        lemma_normalized_text_is_plain(prev);
        let p = numeric_normalized(prev);
        assert forall|k: int| 0 <= k < numeric_normalized(s).len() implies {
            let c = #[trigger] numeric_normalized(s)[k];
            !white_space(c) && c != '\u{2212}'
        } by {
            if k < p.len() {
                assert(numeric_normalized(s)[k] == p[k]);
            }
        }
        if forall|k: int| 0 <= k < s.len() ==> !white_space(#[trigger] s[k]) && s[k] != '\u{2212}' {
            assert forall|k: int| 0 <= k < prev.len() implies !white_space(#[trigger] prev[k])
                && prev[k] != '\u{2212}' by {
                assert(prev[k] == s[k]);
            }
            assert(!white_space(s[s.len() - 1]) && s[s.len() - 1] != '\u{2212}');
            assert(prev.push(s.last()) =~= s);
        }
    }
}

/// Removes white space (such as thousands spacing) from numeric entry text and
/// turns the typographic minus sign into `-`, ready for number parsing.
pub fn normalize_numeric_text(text: &str) -> (normalized: String)
    ensures
        normalized@ == numeric_normalized(text@),
{
    let mut normalized = String::new();
    for c in iter: text.chars()
        invariant
            iter.seq() == text@,
            normalized@ == numeric_normalized(iter.seq().take(iter.index() as int)),
    {
        proof {
            assert(iter.seq().take(iter.index() + 1).drop_last() =~= iter.seq().take(
                iter.index() as int,
            ));
        }
        if is_white_space(c) {
        } else if c == '\u{2212}' {
            push_char(&mut normalized, '-');
        } else {
            push_char(&mut normalized, c);
        }
    }
    proof {
        assert(text@.take(text@.len() as int) =~= text@);
    }
    normalized
}

} // verus!
