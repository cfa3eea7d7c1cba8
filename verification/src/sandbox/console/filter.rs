//! The filter between the guest console and the terminal.
//!
//! Guest output is parsed into terminal actions. What is known to be harmless is written out
//! again, everything else is dropped: operating system commands (the clipboard lives there),
//! device control strings, window operations, queries, C1 controls and invisible characters.
use vstd::prelude::*;

use crate::sandbox::console::terminal;
use crate::sandbox::console::terminal::{Action, ActionView, Category, ANSI_ESC};
use crate::text;

verus! {

broadcast use vstd::seq_lib::group_seq_properties;

/// How many combining marks may follow each other.
pub const COMBINING_MARKER_CONSECUTIVE_MAX: usize = 8;

/// How many bytes may be read without anything being written before the parser starts anew.
pub const MAX_STRING_SEQUENCE: usize = 4096;

/// Whether the guest may switch a DEC private mode: application cursor keys, cursor
/// visibility, the alternate screen, mouse tracking, bracketed paste, synchronized output.
pub open spec fn is_allowed_private_mode(mode: u16) -> bool {
    ||| mode == 1
    ||| mode == 25
    ||| mode == 47 || mode == 1047 || mode == 1049
    ||| mode == 1000 || mode == 1002 || mode == 1003 || mode == 1004 || mode == 1005
    ||| mode == 1006 || mode == 1015
    ||| mode == 2004
    ||| mode == 2026
}

/// Whether a character is a format character, which is invisible.
pub open spec fn is_format(character: char) -> bool {
    terminal::general_category(character) == Category::Format
}

/// Whether a character is not for the terminal to see: a format character, or a C1 control,
/// which a terminal would take as the start of a sequence.
pub open spec fn is_hidden(character: char) -> bool {
    is_format(character) || terminal::is_c1(character)
}

/// Whether a character changes how the one before it looks.
pub open spec fn is_mark(character: char) -> bool {
    let category = terminal::general_category(character);
    category == Category::NonspacingMark || category == Category::SpacingMark || category
        == Category::EnclosingMark
}

/// Whether a control sequence without intermediates may pass: styling, cursor movement,
/// scrolling, editing, and erasing anything but the scrollback.
pub open spec fn is_allowed_csi(action: char, params: Seq<Seq<u16>>) -> bool {
    ||| action == 'm'
    ||| action == 'A' || action == 'B' || action == 'C' || action == 'D'
    ||| action == 'E' || action == 'F' || action == 'G' || action == 'H'
    ||| action == '~' && params.flatten().len() > 0 && 1 <= params.flatten()[0] <= 8
    ||| action == 'L' || action == 'M' || action == 'P' || action == '@' || action == 'X'
    ||| action == 'J' && forall|i: int|
        0 <= i < params.len() ==> !(#[trigger] params[i]).contains(3u16)
    ||| action == 'K'
    ||| action == 's' || action == 'u' || action == 'r'
}

/// Whether an escape sequence may pass: cursor movement, saving and restoring the cursor,
/// setting a tab stop.
pub open spec fn is_allowed_esc(byte: u8) -> bool {
    ||| byte == '7' as u8
    ||| byte == '8' as u8
    ||| byte == 'D' as u8
    ||| byte == 'M' as u8
    ||| byte == 'E' as u8
    ||| byte == 'H' as u8
}

/// The mode numbers of a private mode sequence: the first number of each parameter.
pub open spec fn modes(params: Seq<Seq<u16>>) -> Seq<u16> {
    params.filter(|param: Seq<u16>| param.len() > 0).map_values(|param: Seq<u16>| param[0])
}

/// Whether a control sequence may pass.
pub open spec fn passes_csi(params: Seq<Seq<u16>>, intermediates: Seq<u8>, action: char) -> bool {
    ||| intermediates.len() == 0 && is_allowed_csi(action, params)
    ||| intermediates == seq!['?' as u8] && (action == 'h' || action == 'l') && forall|i: int|
        0 <= i < modes(params).len() ==> is_allowed_private_mode(#[trigger] modes(params)[i])
    ||| intermediates == seq![' ' as u8] && action == 'q'
}

/// How many combining marks stand at the end of what the actions print. Hidden characters
/// and anything that is not printed neither count nor separate.
pub open spec fn marks_after(actions: Seq<ActionView>) -> nat
    decreases actions.len(),
{
    if actions.len() == 0 {
        0
    } else {
        let before = marks_after(actions.drop_last());
        match actions.last() {
            ActionView::Print(character) => if is_hidden(character) {
                before
            } else if is_mark(character) {
                before + 1
            } else {
                0
            },
            _ => before,
        }
    }
}

/// Whether an action that follows `marks` combining marks may pass. Of control bytes those
/// are the C0 controls but NUL.
pub open spec fn passes(action: ActionView, marks: nat) -> bool {
    match action {
        ActionView::Print(character) => !is_hidden(character) && !(is_mark(character) && marks
            >= COMBINING_MARKER_CONSECUTIVE_MAX),
        ActionView::Execute(byte) => byte != 0x00 && !(0x80 <= byte <= 0x9F),
        ActionView::Csi { params, intermediates, ignore, action } => !ignore && passes_csi(
            params,
            intermediates,
            action,
        ),
        ActionView::Esc { intermediates, ignore, byte } => !ignore && intermediates.len() == 0
            && is_allowed_esc(byte),
        _ => false,
    }
}

/// What the terminal gets to see of one action that follows `marks` combining marks.
pub open spec fn emitted(action: ActionView, marks: nat) -> Seq<u8> {
    if passes(action, marks) {
        terminal::written(action)
    } else {
        Seq::empty()
    }
}

/// What the terminal gets to see of a run of actions.
pub open spec fn performed(actions: Seq<ActionView>) -> Seq<u8>
    decreases actions.len(),
{
    if actions.len() == 0 {
        Seq::empty()
    } else {
        performed(actions.drop_last()) + emitted(
            actions.last(),
            marks_after(actions.drop_last()),
        )
    }
}

/// Whether an ASCII character or a replacement character that the action prints is neither a
/// format character nor a mark.
pub open spec fn prints_visibly(action: ActionView) -> bool {
    action matches ActionView::Print(character) ==> (character <= '\u{7F}' || character
        == '\u{FFFD}' ==> !is_format(character) && !is_mark(character))
}

/// Tells whether a character is a format character.
pub fn is_format_char(character: char) -> (result: bool)
    ensures
        result == is_format(character),
        character <= '\u{7F}' || character == '\u{FFFD}' ==> !result,
{
    terminal::category(character) == Category::Format
}

/// Tells whether a character changes how the one before it looks.
pub fn is_combining_mark(character: char) -> (result: bool)
    ensures
        result == is_mark(character),
        character <= '\u{7F}' || character == '\u{FFFD}' ==> !result,
{
    match terminal::category(character) {
        Category::NonspacingMark => true,
        Category::SpacingMark => true,
        Category::EnclosingMark => true,
        _ => false,
    }
}

/// Tells whether the guest may switch a DEC private mode.
fn allowed_private_mode(mode: u16) -> (result: bool)
    ensures
        result == is_allowed_private_mode(mode),
{
    match mode {
        1 | 25 | 47 | 1047 | 1049 => true,
        1000 | 1002 | 1003 | 1004 | 1005 | 1006 | 1015 => true,
        2004 | 2026 => true,
        _ => false,
    }
}

/// The mode numbers of a private mode sequence.
pub fn mode_numbers(params: &Vec<Vec<u16>>) -> (numbers: Vec<u16>)
    ensures
        numbers@ == modes(terminal::params_view(params@)),
{
    let ghost view = terminal::params_view(params@);
    let ghost given = |param: Seq<u16>| param.len() > 0;
    let ghost first = |param: Seq<u16>| param[0];
    let mut numbers: Vec<u16> = Vec::new();
    for i in 0..params.len()
        invariant
            view == terminal::params_view(params@),
            given == (|param: Seq<u16>| param.len() > 0),
            first == (|param: Seq<u16>| param[0]),
            numbers@ == view.take(i as int).filter(given).map_values(first),
    {
        proof {
            assert(view.take(i + 1) =~= view.take(i as int).push(view[i as int]));
            view.take(i as int).lemma_filter_push(view[i as int], given);
        }
        if params[i].len() > 0 {
            numbers.push(params[i][0]);
        }
        assert(numbers@ =~= view.take(i + 1).filter(given).map_values(first));
    }
    assert(view.take(view.len() as int) =~= view);
    numbers
}

/// Tells whether a control sequence without intermediates may pass.
pub fn allowed_csi(action: char, params: &Vec<Vec<u16>>) -> (result: bool)
    ensures
        result == is_allowed_csi(action, terminal::params_view(params@)),
{
    match action {
        // Text styling and colors
        'm' => true,
        // Cursor movement
        'A' | 'B' | 'C' | 'D' | 'E' | 'F' | 'G' | 'H' => true,
        // Editing keys, but no function keys
        '~' => match first_number(params) {
            Some(number) => 1 <= number && number <= 8,
            None => false,
        },
        // Inserting and deleting lines and characters
        'L' | 'M' | 'P' | '@' | 'X' => true,
        // Erasing the display, but not the scrollback
        'J' => !mentions(params, 3),
        // Erasing the line
        'K' => true,
        // The cursor is saved and restored, the scrolling region is set
        's' | 'u' | 'r' => true,
        _ => false,
    }
}

/// The first number in a parameter list.
fn first_number(params: &Vec<Vec<u16>>) -> (number: Option<u16>)
    ensures
        number == (if terminal::params_view(params@).flatten().len() > 0 {
            Some(terminal::params_view(params@).flatten()[0])
        } else {
            None
        }),
{
    let ghost view = terminal::params_view(params@);
    assert(view.skip(0) =~= view);
    for i in 0..params.len()
        invariant
            view == terminal::params_view(params@),
            view.flatten() == view.skip(i as int).flatten(),
    {
        proof {
            assert(view.skip(i as int).first() =~= params@[i as int]@);
            assert(view.skip(i as int).drop_first() =~= view.skip(i + 1));
        }
        if params[i].len() > 0 {
            return Some(params[i][0]);
        }
        assert(view.skip(i as int).flatten() =~= view.skip(i + 1).flatten());
    }
    None
}

/// Tells whether a number occurs in a parameter list.
fn mentions(params: &Vec<Vec<u16>>, number: u16) -> (result: bool)
    ensures
        result == exists|i: int|
            0 <= i < params@.len() && (#[trigger] terminal::params_view(params@)[i]).contains(
                number,
            ),
{
    let ghost view = terminal::params_view(params@);
    for i in 0..params.len()
        invariant
            view == terminal::params_view(params@),
            forall|k: int| 0 <= k < i ==> !(#[trigger] view[k]).contains(number),
    {
        let param: &Vec<u16> = &params[i];
        for j in 0..param.len()
            invariant
                i < params.len(),
                view == terminal::params_view(params@),
                param@ == view[i as int],
                forall|k: int| 0 <= k < j ==> param@[k] != number,
        {
            if param[j] == number {
                assert(view[i as int].contains(number));
                return true;
            }
        }
    }
    false
}

/// Tells whether an escape sequence may pass.
pub fn allowed_esc(byte: u8) -> (result: bool)
    ensures
        result == is_allowed_esc(byte),
{
    // The cursor is saved and restored, the cursor moves, a tab stop is set
    byte == '7' as u8 || byte == '8' as u8 || byte == 'D' as u8 || byte == 'M' as u8 || byte
        == 'E' as u8 || byte == 'H' as u8
}

/// Writes the subparameters of one parameter.
fn write_param(output: &mut Vec<u8>, param: &Vec<u16>)
    ensures
        final(output)@ == old(output)@ + terminal::param_bytes(param@),
{
    let ghost number = |n: u16| text::ascii(text::decimal(n as nat));
    let ghost before = output@;
    let ghost parts = param@.map_values(number);
    for i in 0..param.len()
        invariant
            number == (|n: u16| text::ascii(text::decimal(n as nat))),
            parts == param@.map_values(number),
            output@ == before + text::joined(parts.take(i as int), ':' as u8),
    {
        proof {
            assert(parts.take(i + 1) =~= parts.take(i as int).push(parts[i as int]));
            text::lemma_joined_push(parts.take(i as int), parts[i as int], ':' as u8);
            text::lemma_decimal_digits(param@[i as int] as nat);
            text::lemma_ascii_bytes(text::decimal(param@[i as int] as nat));
        }
        if i > 0 {
            output.push(':' as u8);
        }
        let digits: String = text::decimal_string(param[i] as u64);
        text::append_bytes(output, digits.as_str().as_bytes());
        assert(output@ =~= before + text::joined(parts.take(i + 1), ':' as u8));
    }
    assert(parts.take(parts.len() as int) =~= parts);
}

/// Writes a parameter list.
fn write_params(output: &mut Vec<u8>, params: &Vec<Vec<u16>>)
    ensures
        final(output)@ == old(output)@ + terminal::params_bytes(terminal::params_view(params@)),
{
    let ghost bytes = |param: Seq<u16>| terminal::param_bytes(param);
    let ghost before = output@;
    let ghost parts = terminal::params_view(params@).map_values(bytes);
    for i in 0..params.len()
        invariant
            bytes == (|param: Seq<u16>| terminal::param_bytes(param)),
            parts == terminal::params_view(params@).map_values(bytes),
            output@ == before + text::joined(parts.take(i as int), ';' as u8),
    {
        proof {
            assert(parts.take(i + 1) =~= parts.take(i as int).push(parts[i as int]));
            text::lemma_joined_push(parts.take(i as int), parts[i as int], ';' as u8);
        }
        if i > 0 {
            output.push(';' as u8);
        }
        write_param(output, &params[i]);
        assert(output@ =~= before + text::joined(parts.take(i + 1), ';' as u8));
    }
    assert(parts.take(parts.len() as int) =~= parts);
}

/// Writes those intermediates that are private markers, or those that are none.
fn write_intermediates(output: &mut Vec<u8>, intermediates: &Vec<u8>, markers: bool)
    ensures
        final(output)@ == old(output)@ + intermediates@.filter(
            |byte: u8| terminal::is_private_marker(byte) == markers,
        ),
{
    let ghost kept = |byte: u8| terminal::is_private_marker(byte) == markers;
    let ghost before = output@;
    for i in 0..intermediates.len()
        invariant
            kept == (|byte: u8| terminal::is_private_marker(byte) == markers),
            output@ == before + intermediates@.take(i as int).filter(kept),
    {
        proof {
            assert(intermediates@.take(i + 1) =~= intermediates@.take(i as int).push(
                intermediates@[i as int],
            ));
            intermediates@.take(i as int).lemma_filter_push(intermediates@[i as int], kept);
        }
        let byte: u8 = intermediates[i];
        if (0x3C <= byte && byte <= 0x3F) == markers {
            output.push(byte);
        }
        assert(output@ =~= before + intermediates@.take(i + 1).filter(kept));
    }
    assert(intermediates@.take(intermediates@.len() as int) =~= intermediates@);
}

/// Writes the harmless actions of one chunk of guest output.
pub struct FilterPerformer<'a> {
    pub output: &'a mut Vec<u8>,
    pub combining_marker_count: usize,
}

impl<'a> FilterPerformer<'a> {
    /// A performer that appends to `output` and has printed nothing yet.
    pub fn new(output: &'a mut Vec<u8>) -> (performer: Self)
        ensures
            performer.combining_marker_count == 0,
            *performer.output == *old(output),
            *final(performer.output) == *final(output),
    {
        FilterPerformer { output, combining_marker_count: 0 }
    }

    /// Writes a control sequence.
    fn write_csi(&mut self, params: &Vec<Vec<u16>>, intermediates: &Vec<u8>, action: char)
        requires
            '\u{40}' <= action <= '\u{7E}',
        ensures
            final(self).combining_marker_count == old(self).combining_marker_count,
            final(self).output@ == old(self).output@ + terminal::csi_bytes(
                terminal::params_view(params@),
                intermediates@,
                action,
            ),
            *final(final(self).output) == *final(old(self).output),
    {
        let ghost before = self.output@;
        self.output.push(ANSI_ESC);
        self.output.push('[' as u8);
        write_intermediates(self.output, intermediates, true);
        write_params(self.output, params);
        write_intermediates(self.output, intermediates, false);
        self.output.push(action as u8);
        proof {
            assert((|byte: u8| terminal::is_private_marker(byte) == true) =~= (|byte: u8|
                terminal::is_private_marker(byte)));
            assert((|byte: u8| terminal::is_private_marker(byte) == false) =~= (|byte: u8|
                !terminal::is_private_marker(byte)));
            assert(self.output@ =~= before + terminal::csi_bytes(
                terminal::params_view(params@),
                intermediates@,
                action,
            ));
        }
    }

    /// Prints a character, unless it is hidden or one combining mark too many.
    pub fn print(&mut self, character: char)
        requires
            old(self).combining_marker_count < usize::MAX,
        ensures
            final(self).combining_marker_count == (if is_hidden(character) {
                old(self).combining_marker_count as int
            } else if is_mark(character) {
                old(self).combining_marker_count + 1
            } else {
                0
            }),
            final(self).output@ == old(self).output@ + emitted(
                ActionView::Print(character),
                old(self).combining_marker_count as nat,
            ),
            *final(final(self).output) == *final(old(self).output),
            prints_visibly(ActionView::Print(character)),
    {
        let format: bool = is_format_char(character);
        let mark: bool = is_combining_mark(character);
        if format || ('\u{80}' <= character && character <= '\u{9F}') {
            assert(self.output@ =~= self.output@ + Seq::<u8>::empty());
            return;
        }
        if mark {
            self.combining_marker_count = self.combining_marker_count + 1;
            if self.combining_marker_count > COMBINING_MARKER_CONSECUTIVE_MAX {
                assert(self.output@ =~= self.output@ + Seq::<u8>::empty());
                return;
            }
        } else {
            self.combining_marker_count = 0;
        }
        let mut text: String = String::new();
        text.push(character);
        assert(text@ =~= seq![character]);
        text::append_bytes(self.output, text.as_str().as_bytes());
    }

    /// Passes a C0 control other than NUL on.
    pub fn execute(&mut self, byte: u8)
        ensures
            final(self).combining_marker_count == old(self).combining_marker_count,
            final(self).output@ == old(self).output@ + emitted(ActionView::Execute(byte), 0),
            *final(final(self).output) == *final(old(self).output),
    {
        if byte == 0x00 || (0x80 <= byte && byte <= 0x9F) {
            assert(self.output@ =~= self.output@ + Seq::<u8>::empty());
            return;
        }
        let ghost before = self.output@;
        self.output.push(byte);
        assert(self.output@ =~= before + seq![byte]);
    }

    /// Passes a control sequence on if it is allowed.
    pub fn csi_dispatch(
        &mut self,
        params: &Vec<Vec<u16>>,
        intermediates: &Vec<u8>,
        ignore: bool,
        action: char,
    )
        ensures
            final(self).combining_marker_count == old(self).combining_marker_count,
            final(self).output@ == old(self).output@ + emitted(
                ActionView::Csi {
                    params: terminal::params_view(params@),
                    intermediates: intermediates@,
                    ignore,
                    action,
                },
                0,
            ),
            *final(final(self).output) == *final(old(self).output),
    {
        let ghost list = terminal::params_view(params@);
        let passes: bool = if ignore {
            false
        } else if intermediates.len() == 0 {
            allowed_csi(action, params)
        } else if intermediates.len() == 1 && intermediates[0] == '?' as u8 {
            assert(intermediates@ =~= seq!['?' as u8]);
            // A private mode is set or reset
            (action == 'h' || action == 'l') && allowed_modes(&mode_numbers(params))
        } else if intermediates.len() == 1 && intermediates[0] == ' ' as u8 {
            assert(intermediates@ =~= seq![' ' as u8]);
            // The cursor style is set
            action == 'q'
        } else {
            false
        };
        assert(passes == (!ignore && passes_csi(list, intermediates@, action)));
        if passes {
            self.write_csi(params, intermediates, action);
        } else {
            assert(self.output@ =~= self.output@ + Seq::<u8>::empty());
        }
    }

    /// Passes an escape sequence on if it is allowed.
    pub fn esc_dispatch(&mut self, intermediates: &Vec<u8>, ignore: bool, byte: u8)
        ensures
            final(self).combining_marker_count == old(self).combining_marker_count,
            final(self).output@ == old(self).output@ + emitted(
                ActionView::Esc { intermediates: intermediates@, ignore, byte },
                0,
            ),
            *final(final(self).output) == *final(old(self).output),
    {
        let ghost before = self.output@;
        if !ignore && intermediates.len() == 0 && allowed_esc(byte) {
            self.output.push(ANSI_ESC);
            self.output.push(byte);
            assert(self.output@ =~= before + seq![ANSI_ESC, byte]);
        } else {
            assert(self.output@ =~= before + Seq::<u8>::empty());
        }
    }

    /// Performs one action. Operating system commands and device control strings are dropped.
    pub fn perform(&mut self, action: &Action)
        requires
            old(self).combining_marker_count < usize::MAX,
        ensures
            final(self).combining_marker_count == (match action@ {
                ActionView::Print(character) => if is_hidden(character) {
                    old(self).combining_marker_count as int
                } else if is_mark(character) {
                    old(self).combining_marker_count + 1
                } else {
                    0
                },
                _ => old(self).combining_marker_count as int,
            }),
            final(self).output@ == old(self).output@ + emitted(
                action@,
                old(self).combining_marker_count as nat,
            ),
            *final(final(self).output) == *final(old(self).output),
            prints_visibly(action@),
    {
        match action {
            Action::Print(character) => self.print(*character),
            Action::Execute(byte) => self.execute(*byte),
            Action::Csi { params, intermediates, ignore, action } => self.csi_dispatch(
                params,
                intermediates,
                *ignore,
                *action,
            ),
            Action::Esc { intermediates, ignore, byte } => self.esc_dispatch(
                intermediates,
                *ignore,
                *byte,
            ),
            _ => {
                assert(self.output@ =~= self.output@ + Seq::<u8>::empty());
            },
        }
    }
}

/// Tells whether the guest may switch all of the private modes.
fn allowed_modes(modes: &Vec<u16>) -> (result: bool)
    ensures
        result == forall|i: int|
            0 <= i < modes@.len() ==> is_allowed_private_mode(#[trigger] modes@[i]),
{
    for i in 0..modes.len()
        invariant
            forall|k: int| 0 <= k < i ==> is_allowed_private_mode(#[trigger] modes@[k]),
    {
        if !allowed_private_mode(modes[i]) {
            assert(!is_allowed_private_mode(modes@[i as int]));
            return false;
        }
    }
    true
}

/// Appends what the terminal gets to see of a run of actions.
pub fn perform_all(actions: &Vec<Action>, output: &mut Vec<u8>)
    ensures
        final(output)@ == old(output)@ + performed(terminal::actions_view(actions@)),
        forall|i: int|
            0 <= i < actions@.len() ==> prints_visibly((#[trigger] actions@[i])@),
{
    let ghost view = terminal::actions_view(actions@);
    let ghost before = output@;
    let ghost after = *final(output);
    let mut performer: FilterPerformer = FilterPerformer::new(output);
    assert(performer.output@ =~= before + performed(view.take(0)));
    for i in 0..actions.len()
        invariant
            view == terminal::actions_view(actions@),
            performer.combining_marker_count == marks_after(view.take(i as int)),
            performer.combining_marker_count <= i,
            performer.output@ == before + performed(view.take(i as int)),
            *final(performer.output) == after,
            forall|k: int| 0 <= k < i ==> prints_visibly((#[trigger] actions@[k])@),
    {
        assert(view.take(i + 1).drop_last() =~= view.take(i as int));
        performer.perform(&actions[i]);
        assert(performer.output@ =~= before + performed(view.take(i + 1)));
    }
    assert(view.take(view.len() as int) =~= view);
}

/// What the terminal gets to see of `input` after a parser has read `chunks`.
pub open spec fn filtered(chunks: Seq<Seq<u8>>, input: Seq<u8>) -> Seq<u8> {
    performed(terminal::parsed_actions(chunks, input))
}

/// Whether a sequence is given up on `input`: nothing was written for too long.
pub open spec fn gives_up(chunks: Seq<Seq<u8>>, silence: nat, input: Seq<u8>) -> bool {
    filtered(chunks, input).len() == 0 && silence + input.len() > MAX_STRING_SEQUENCE
}

/// The chunks that the parser has read after `input`.
pub open spec fn next_chunks(
    chunks: Seq<Seq<u8>>,
    silence: nat,
    input: Seq<u8>,
) -> Seq<Seq<u8>> {
    if gives_up(chunks, silence, input) {
        Seq::empty()
    } else {
        chunks.push(input)
    }
}

/// How many bytes were read since something was written, after `input`.
pub open spec fn next_silence(chunks: Seq<Seq<u8>>, silence: nat, input: Seq<u8>) -> nat {
    if gives_up(chunks, silence, input) || filtered(chunks, input).len() > 0 {
        0
    } else {
        silence + input.len()
    }
}

/// What the terminal gets to see of pieces that come one after the other.
pub open spec fn filtered_in_pieces(
    chunks: Seq<Seq<u8>>,
    silence: nat,
    pieces: Seq<Seq<u8>>,
) -> Seq<u8>
    decreases pieces.len(),
{
    if pieces.len() == 0 {
        Seq::empty()
    } else {
        filtered(chunks, pieces[0]) + filtered_in_pieces(
            next_chunks(chunks, silence, pieces[0]),
            next_silence(chunks, silence, pieces[0]),
            pieces.drop_first(),
        )
    }
}

/// The chunks that the parser has read, and how many bytes were read since something was
/// written, after pieces that came one after the other.
pub open spec fn state_after(
    chunks: Seq<Seq<u8>>,
    silence: nat,
    pieces: Seq<Seq<u8>>,
) -> (Seq<Seq<u8>>, nat)
    decreases pieces.len(),
{
    if pieces.len() == 0 {
        (chunks, silence)
    } else {
        state_after(
            next_chunks(chunks, silence, pieces[0]),
            next_silence(chunks, silence, pieces[0]),
            pieces.drop_first(),
        )
    }
}

/// One more piece is filtered in the state that the others have led to.
pub proof fn lemma_one_more_piece(
    chunks: Seq<Seq<u8>>,
    silence: nat,
    pieces: Seq<Seq<u8>>,
    piece: Seq<u8>,
)
    ensures
        ({
            let (seen, quiet) = state_after(chunks, silence, pieces);
            &&& filtered_in_pieces(chunks, silence, pieces.push(piece)) == filtered_in_pieces(
                chunks,
                silence,
                pieces,
            ) + filtered(seen, piece)
            &&& state_after(chunks, silence, pieces.push(piece)) == (
                next_chunks(seen, quiet, piece),
                next_silence(seen, quiet, piece),
            )
        }),
    decreases pieces.len(),
{
    let all = pieces.push(piece);
    let next = next_chunks(chunks, silence, all[0]);
    let quiet = next_silence(chunks, silence, all[0]);
    if pieces.len() == 0 {
        assert(all.drop_first() =~= pieces);
        assert(filtered_in_pieces(next, quiet, pieces) =~= Seq::<u8>::empty());
        assert(filtered(chunks, piece) + Seq::<u8>::empty() =~= Seq::<u8>::empty() + filtered(
            chunks,
            piece,
        ));
        assert(state_after(next, quiet, pieces) == (next, quiet));
    } else {
        assert(all.drop_first() =~= pieces.drop_first().push(piece));
        assert(all[0] == pieces[0]);
        lemma_one_more_piece(next, quiet, pieces.drop_first(), piece);
        text::lemma_concat_associative(
            filtered(chunks, pieces[0]),
            filtered_in_pieces(next, quiet, pieces.drop_first()),
            filtered(state_after(chunks, silence, pieces).0, piece),
        );
    }
}

/// Whether an action prints a combining mark.
pub open spec fn prints_mark(action: ActionView) -> bool {
    action matches ActionView::Print(character) && !is_hidden(character) && is_mark(character)
}

/// Whether none of the actions prints a combining mark.
pub open spec fn has_no_marks(actions: Seq<ActionView>) -> bool {
    forall|i: int| 0 <= i < actions.len() ==> !prints_mark(#[trigger] actions[i])
}

/// Whether there is no combining mark in a text.
pub open spec fn is_markless(string: Seq<char>) -> bool {
    forall|i: int| 0 <= i < string.len() ==> !is_mark(#[trigger] string[i])
}

/// Filters guest output chunk by chunk.
pub struct AnsiFilter {
    parser: vte::Parser,
    current_string_sequence_length: usize,
}

impl Default for AnsiFilter {
    fn default() -> (filter: Self)
        ensures
            filter.chunks() == Seq::<Seq<u8>>::empty(),
            filter.silence() == 0,
    {
        AnsiFilter::new()
    }
}

impl AnsiFilter {
    /// The chunks that the parser has read since it last started anew.
    pub closed spec fn chunks(&self) -> Seq<Seq<u8>> {
        terminal::parser_chunks(self.parser)
    }

    /// How many bytes were read since something was last written.
    pub closed spec fn silence(&self) -> nat {
        self.current_string_sequence_length as nat
    }

    /// A filter that has read nothing.
    pub fn new() -> (filter: Self)
        ensures
            filter.chunks() == Seq::<Seq<u8>>::empty(),
            filter.silence() == 0,
    {
        AnsiFilter { parser: terminal::new_parser(), current_string_sequence_length: 0 }
    }

    /// Appends the harmless part of `input` to `output`.
    ///
    /// A sequence that runs over more than [`MAX_STRING_SEQUENCE`] bytes without an end is
    /// given up: the parser starts anew.
    ///
    /// A new filter lets through unchanged what was let through once. As long as nothing is
    /// given up and no combining mark is printed it does not matter how the input is cut into
    /// pieces, but for cuts inside a character of two bytes at which the parser loses the one
    /// behind it. A text without marks prints none.
    pub fn filter(&mut self, input: &[u8], output: &mut Vec<u8>)
        ensures
            final(output)@ == old(output)@ + filtered(old(self).chunks(), input@),
            final(self).chunks() == next_chunks(old(self).chunks(), old(self).silence(), input@),
            final(self).silence() == next_silence(
                old(self).chunks(),
                old(self).silence(),
                input@,
            ),
            final(self).silence() <= MAX_STRING_SEQUENCE,
            is_harmless(filtered(old(self).chunks(), input@)),
            terminal::is_plain(input@) && terminal::all_plain(old(self).chunks())
                ==> final(output)@ == old(output)@ + without_nul(input@),
            filtered(Seq::empty(), filtered(old(self).chunks(), input@)) == filtered(
                old(self).chunks(),
                input@,
            ),
            old(self).silence() + input@.len() <= MAX_STRING_SEQUENCE && has_no_marks(
                terminal::parsed_actions(old(self).chunks(), input@),
            ) ==> forall|pieces: Seq<Seq<u8>>| #[trigger]
                terminal::is_cut_of(old(self).chunks(), pieces, input@) ==> filtered_in_pieces(
                    old(self).chunks(),
                    old(self).silence(),
                    pieces,
                ) == filtered(old(self).chunks(), input@),
            old(self).chunks().len() == 0 ==> forall|string: Seq<char>|
                input@ == #[trigger] vstd::utf8::encode_utf8(string) && is_markless(string)
                    ==> has_no_marks(terminal::parsed_actions(old(self).chunks(), input@)),
            forall|params: Seq<Seq<u16>>, action: char|
                is_always_let_through(action) && #[trigger] terminal::parsed_actions(
                    old(self).chunks(),
                    input@,
                ).contains(sequence_action(params, action)) ==> filtered(
                    Seq::empty(),
                    sequence(params, action),
                ) == sequence(params, action),
    {
        let before: usize = output.len();
        let actions: Vec<Action> = terminal::advance(&mut self.parser, input);
        perform_all(&actions, output);
        proof {
            let view = terminal::actions_view(actions@);
            assert forall|i: int| 0 <= i < view.len() implies terminal::is_parser_action(
                #[trigger] view[i],
            ) && prints_visibly(view[i]) by {
                assert(view[i] == actions@[i]@);
            }
            lemma_output_is_harmless(view);
            if terminal::is_plain(input@) && view == terminal::plain_actions(input@) {
                lemma_plain_text(input@, view);
            }
            lemma_kept(view);
            let kept = kept(view);
            assert(terminal::parsed_actions(Seq::empty(), terminal::written_all(kept)) == kept);
            assert forall|params: Seq<Seq<u16>>, action: char|
                is_always_let_through(action) && #[trigger] view.contains(
                    sequence_action(params, action),
                ) implies filtered(Seq::empty(), sequence(params, action)) == sequence(
                params,
                action,
            ) by {
                let alone = seq![sequence_action(params, action)];
                lemma_sequence_bytes(params, action);
                assert(alone.drop_last() =~= Seq::<ActionView>::empty());
                reveal_with_fuel(terminal::written_all, 2);
                assert(terminal::written_all(alone) =~= sequence(params, action));
                assert(terminal::is_written_in_full(alone[0]) && view.contains(alone[0]));
                assert(terminal::parsed_actions(Seq::empty(), terminal::written_all(alone))
                    == alone);
                lemma_sequences_come_back(params, action);
            }
            let chunks = old(self).chunks();
            let silence = old(self).silence();
            if silence + input@.len() <= MAX_STRING_SEQUENCE && has_no_marks(view) {
                assert forall|pieces: Seq<Seq<u8>>| #[trigger]
                    terminal::is_cut_of(chunks, pieces, input@) implies filtered_in_pieces(
                    chunks,
                    silence,
                    pieces,
                ) == filtered(chunks, input@) by {
                    let cut = terminal::parsed_in_pieces(chunks, pieces);
                    lemma_executing_c1(view);
                    lemma_executing_c1(cut);
                    lemma_pieces(chunks, silence, pieces);
                }
            }
            if chunks.len() == 0 {
                assert forall|string: Seq<char>|
                    input@ == #[trigger] vstd::utf8::encode_utf8(string) && is_markless(
                        string,
                    ) implies has_no_marks(view) by {
                    assert forall|i: int| 0 <= i < view.len() implies !prints_mark(
                        #[trigger] view[i],
                    ) by {
                        assert(view[i] == actions@[i]@);
                        assert(terminal::prints_of(view[i], string));
                        assert(prints_visibly(view[i]));
                    }
                }
            }
        }
        if output.len() > before {
            self.current_string_sequence_length = 0;
        } else {
            self.current_string_sequence_length =
            self.current_string_sequence_length.saturating_add(input.len());
            if self.current_string_sequence_length > MAX_STRING_SEQUENCE {
                *self = AnsiFilter::new();
            }
        }
    }
}

/// Every escape character introduces a control sequence or an allowed escape sequence that
/// has its second byte in the same output.
pub open spec fn has_escapes_within_bounds(output: Seq<u8>) -> bool {
    forall|i: int|
        0 <= i < output.len() && #[trigger] output[i] == ANSI_ESC ==> i + 1 < output.len() && (
        output[i + 1] == '[' as u8 || is_allowed_esc(output[i + 1]))
}

/// Whether a character has no place in the output: NUL and the C1 controls.
pub open spec fn is_forbidden(character: char) -> bool {
    character == '\u{0}' || terminal::is_c1(character)
}

/// Whether the bytes are a text in UTF-8 without forbidden characters.
pub open spec fn is_clean_text(output: Seq<u8>) -> bool {
    exists|string: Seq<char>|
        output == #[trigger] vstd::utf8::encode_utf8(string) && is_clean(string)
}

/// Whether no character of a text is forbidden.
pub open spec fn is_clean(string: Seq<char>) -> bool {
    forall|i: int| 0 <= i < string.len() ==> !is_forbidden(#[trigger] string[i])
}

/// Whether neither an operating system command nor a device control string, nor any other
/// string, can begin in the output: not behind an escape character, and not with a C1
/// control, whether a terminal takes the bytes as they are or as UTF-8.
pub open spec fn is_harmless(output: Seq<u8>) -> bool {
    has_escapes_within_bounds(output) && is_clean_text(output)
}

/// Outputs behind each other are harmless if each of them is.
pub proof fn lemma_harmless_concat(first: Seq<u8>, second: Seq<u8>)
    requires
        is_harmless(first),
        is_harmless(second),
    ensures
        is_harmless(first + second),
{
    lemma_bounds_concat(first, second);
    let head = choose|string: Seq<char>|
        first == #[trigger] vstd::utf8::encode_utf8(string) && is_clean(string);
    let tail = choose|string: Seq<char>|
        second == #[trigger] vstd::utf8::encode_utf8(string) && is_clean(string);
    lemma_encoding_concat(head, tail);
    assert forall|i: int| 0 <= i < (head + tail).len() implies !is_forbidden(
        #[trigger] (head + tail)[i],
    ) by {
        if i < head.len() {
            assert((head + tail)[i] == head[i]);
        } else {
            assert((head + tail)[i] == tail[i - head.len()]);
        }
    }
    assert(is_clean(head + tail));
}

/// Nothing is harmless.
pub proof fn lemma_nothing_is_harmless()
    ensures
        is_harmless(Seq::empty()),
{
    let nothing = Seq::<char>::empty();
    assert(vstd::utf8::encode_utf8(nothing) =~= Seq::<u8>::empty());
    assert(is_clean(nothing));
}

/// Texts behind each other are encoded behind each other.
proof fn lemma_encoding_concat(first: Seq<char>, second: Seq<char>)
    ensures
        vstd::utf8::encode_utf8(first + second) == vstd::utf8::encode_utf8(first)
            + vstd::utf8::encode_utf8(second),
    decreases first.len(),
{
    if first.len() == 0 {
        assert(first + second =~= second);
        assert(vstd::utf8::encode_utf8(first) + vstd::utf8::encode_utf8(second)
            =~= vstd::utf8::encode_utf8(second));
    } else {
        assert((first + second).drop_first() =~= first.drop_first() + second);
        lemma_encoding_concat(first.drop_first(), second);
        text::lemma_concat_associative(
            vstd::utf8::encode_scalar(first[0] as u32),
            vstd::utf8::encode_utf8(first.drop_first()),
            vstd::utf8::encode_utf8(second),
        );
    }
}

/// Outputs behind each other have their escape characters within bounds if each of them does.
pub proof fn lemma_bounds_concat(first: Seq<u8>, second: Seq<u8>)
    requires
        has_escapes_within_bounds(first),
        has_escapes_within_bounds(second),
    ensures
        has_escapes_within_bounds(first + second),
{
    let output = first + second;
    let split = first.len() as int;
    assert forall|i: int| 0 <= i < output.len() && #[trigger] output[i] == ANSI_ESC implies i + 1
        < output.len() && (output[i + 1] == '[' as u8 || is_allowed_esc(output[i + 1])) by {
        if i < split {
            assert(output[i] == first[i]);
            assert(output[i + 1] == first[i + 1]);
        } else {
            assert(output[i] == second[i - split]);
            assert(output[i + 1] == second[i - split + 1]);
        }
    }
}

/// The bytes that are not NUL.
pub open spec fn without_nul(bytes: Seq<u8>) -> Seq<u8> {
    bytes.filter(|byte: u8| byte != 0)
}

/// Plain text passes unchanged, without its NUL bytes.
pub proof fn lemma_plain_text(input: Seq<u8>, actions: Seq<ActionView>)
    requires
        terminal::is_plain(input),
        actions == terminal::plain_actions(input),
        forall|i: int| 0 <= i < actions.len() ==> prints_visibly(#[trigger] actions[i]),
    ensures
        performed(actions) == without_nul(input),
        marks_after(actions) == 0,
    decreases input.len(),
{
    reveal(Seq::filter);
    if input.len() > 0 {
        let action = actions.last();
        assert forall|i: int| 0 <= i < actions.len() - 1 implies prints_visibly(
            #[trigger] actions.drop_last()[i],
        ) by {
            assert(actions.drop_last()[i] == actions[i]);
        }
        assert(actions.drop_last() =~= terminal::plain_actions(input.drop_last()));
        lemma_plain_text(input.drop_last(), actions.drop_last());
        let byte = input.last();
        assert(action == terminal::plain_action(byte));
        if byte >= 0x20 {
            let character = byte as char;
            assert(prints_visibly(action));
            text::lemma_ascii_bytes(seq![character]);
            assert(emitted(action, 0) =~= seq![byte]);
        }
        assert(performed(actions) =~= without_nul(input));
    }
}

/// The encoding of a character that is no C0 control holds no escape character.
proof fn lemma_encoding_lacks_escape(character: char)
    requires
        character >= '\u{20}',
    ensures
        !vstd::utf8::encode_utf8(seq![character]).contains(ANSI_ESC),
{
    let s = character as u32;
    reveal_with_fuel(vstd::utf8::encode_utf8, 2);
    assert(vstd::utf8::encode_utf8(seq![character]) =~= vstd::utf8::encode_scalar(s));
    assert(0x20 <= s <= 0x7F ==> (s & 0x7F) as u8 != 0x1B) by (bit_vector);
    assert(0xC0u8 | ((s >> 6) & 0x1F) as u8 != 0x1B) by (bit_vector);
    assert(0xE0u8 | ((s >> 12) & 0x0F) as u8 != 0x1B) by (bit_vector);
    assert(0xF0u8 | ((s >> 18) & 0x7) as u8 != 0x1B) by (bit_vector);
    assert(0x80u8 | (s & 0x3F) as u8 != 0x1B) by (bit_vector);
    assert(0x80u8 | ((s >> 6) & 0x3F) as u8 != 0x1B) by (bit_vector);
    assert(0x80u8 | ((s >> 12) & 0x3F) as u8 != 0x1B) by (bit_vector);
}

/// A parameter list holds digits, semicolons and colons.
proof fn lemma_params_lack(params: Seq<Seq<u16>>, byte: u8)
    requires
        byte < '0' as u8 || byte > ';' as u8,
    ensures
        !terminal::params_bytes(params).contains(byte),
{
    let parts = params.map_values(|param: Seq<u16>| terminal::param_bytes(param));
    assert forall|i: int| 0 <= i < parts.len() implies !(#[trigger] parts[i]).contains(byte) by {
        let numbers = params[i].map_values(|n: u16| text::ascii(text::decimal(n as nat)));
        assert forall|k: int| 0 <= k < numbers.len() implies !(#[trigger] numbers[k]).contains(
            byte,
        ) by {
            let n = params[i][k] as nat;
            text::lemma_decimal_digits(n);
            assert forall|m: int| 0 <= m < numbers[k].len() implies numbers[k][m] != byte by {
                assert(numbers[k][m] == text::decimal(n)[m] as u8);
            }
        }
        text::lemma_joined_lacks(numbers, ':' as u8, byte);
    }
    text::lemma_joined_lacks(parts, ';' as u8, byte);
}

/// A control sequence that may pass is made of ASCII characters, and of its bytes only the
/// first is an escape character, with the bracket behind it.
proof fn lemma_csi_bytes(params: Seq<Seq<u16>>, intermediates: Seq<u8>, action: char)
    requires
        passes_csi(params, intermediates, action),
    ensures
        ({
            let bytes = terminal::csi_bytes(params, intermediates, action);
            &&& bytes.len() >= 2 && bytes[0] == ANSI_ESC && bytes[1] == '[' as u8
            &&& forall|i: int| 1 <= i < bytes.len() ==> 0x20 <= #[trigger] bytes[i] < 0x7F
        }),
{
    let markers = intermediates.filter(|byte: u8| terminal::is_private_marker(byte));
    let others = intermediates.filter(|byte: u8| !terminal::is_private_marker(byte));
    let list = terminal::params_bytes(params);
    let bytes = terminal::csi_bytes(params, intermediates, action);
    assert forall|i: int| 1 <= i < bytes.len() implies 0x20 <= #[trigger] bytes[i] < 0x7F by {
        let at = i - 2;
        if at < 0 {
        } else if at < markers.len() {
            assert(bytes[i] == markers[at]);
            assert(markers.contains(bytes[i]));
            intermediates.lemma_filter_contains_rev(
                |byte: u8| terminal::is_private_marker(byte),
                bytes[i],
            );
        } else if at - markers.len() < list.len() {
            assert(bytes[i] == list[at - markers.len()]);
            assert(list.contains(bytes[i]));
            if bytes[i] < '0' as u8 || bytes[i] > ';' as u8 {
                lemma_params_lack(params, bytes[i]);
            }
        } else if at - markers.len() - list.len() < others.len() {
            assert(bytes[i] == others[at - markers.len() - list.len()]);
            assert(others.contains(bytes[i]));
            intermediates.lemma_filter_contains_rev(
                |byte: u8| !terminal::is_private_marker(byte),
                bytes[i],
            );
        } else {
            assert(bytes[i] == action as u8);
        }
    }
}

/// ASCII bytes without NUL are clean text.
proof fn lemma_ascii_is_clean(bytes: Seq<u8>)
    requires
        forall|i: int| 0 <= i < bytes.len() ==> 0 < #[trigger] bytes[i] < 0x80,
    ensures
        is_clean_text(bytes),
{
    let string = bytes.map_values(|byte: u8| byte as char);
    assert(vstd::utf8::is_ascii_chars(string));
    text::lemma_ascii_bytes(string);
    assert(text::ascii(string) =~= bytes);
    assert(is_clean(string));
}

/// What the terminal gets to see of one action that a parser asks for is harmless.
proof fn lemma_emitted_is_harmless(action: ActionView, marks: nat)
    requires
        terminal::is_parser_action(action),
    ensures
        is_harmless(emitted(action, marks)),
{
    lemma_nothing_is_harmless();
    if passes(action, marks) {
        let bytes = emitted(action, marks);
        match action {
            ActionView::Print(character) => {
                lemma_encoding_lacks_escape(character);
                assert forall|i: int| 0 <= i < bytes.len() implies #[trigger] bytes[i]
                    != ANSI_ESC by {
                    assert(bytes.contains(bytes[i]));
                }
                assert(is_clean(seq![character]));
            },
            ActionView::Execute(byte) => {
                lemma_ascii_is_clean(bytes);
            },
            ActionView::Csi { params, intermediates, ignore, action } => {
                lemma_csi_bytes(params, intermediates, action);
                lemma_ascii_is_clean(bytes);
            },
            _ => {
                lemma_ascii_is_clean(bytes);
            },
        }
    }
}

/// Whatever a parser asks for, what the terminal gets to see of it is harmless.
pub proof fn lemma_output_is_harmless(actions: Seq<ActionView>)
    requires
        forall|i: int| 0 <= i < actions.len() ==> terminal::is_parser_action(#[trigger] actions[i]),
    ensures
        is_harmless(performed(actions)),
    decreases actions.len(),
{
    if actions.len() == 0 {
        lemma_nothing_is_harmless();
    } else {
        let before = actions.drop_last();
        assert forall|i: int| 0 <= i < before.len() implies terminal::is_parser_action(
            #[trigger] before[i],
        ) by {
            assert(before[i] == actions[i]);
        }
        lemma_output_is_harmless(before);
        assert(terminal::is_parser_action(actions[actions.len() - 1]));
        lemma_emitted_is_harmless(actions.last(), marks_after(before));
        lemma_harmless_concat(
            performed(before),
            emitted(actions.last(), marks_after(before)),
        );
    }
}

/// The actions that may pass.
pub open spec fn kept(actions: Seq<ActionView>) -> Seq<ActionView>
    decreases actions.len(),
{
    if actions.len() == 0 {
        Seq::empty()
    } else {
        let before = kept(actions.drop_last());
        if passes(actions.last(), marks_after(actions.drop_last())) {
            before.push(actions.last())
        } else {
            before
        }
    }
}

/// The actions that may pass are all that the terminal gets to see, and all of them may pass
/// again.
proof fn lemma_kept(actions: Seq<ActionView>)
    requires
        forall|i: int| 0 <= i < actions.len() ==> terminal::is_parser_action(#[trigger] actions[i]),
    ensures
        performed(actions) == terminal::written_all(kept(actions)),
        performed(kept(actions)) == terminal::written_all(kept(actions)),
        marks_after(kept(actions)) == (if marks_after(actions) < COMBINING_MARKER_CONSECUTIVE_MAX {
            marks_after(actions) as int
        } else {
            COMBINING_MARKER_CONSECUTIVE_MAX as int
        }),
        forall|i: int|
            0 <= i < kept(actions).len() ==> terminal::is_written_in_full(
                #[trigger] kept(actions)[i],
            ) && actions.contains(kept(actions)[i]),
    decreases actions.len(),
{
    if actions.len() > 0 {
        let before = actions.drop_last();
        let action = actions.last();
        assert forall|i: int| 0 <= i < before.len() implies terminal::is_parser_action(
            #[trigger] before[i],
        ) by {
            assert(before[i] == actions[i]);
        }
        lemma_kept(before);
        assert(terminal::is_parser_action(actions[actions.len() - 1]));
        let all = kept(actions);
        if passes(action, marks_after(before)) {
            assert(all.drop_last() =~= kept(before));
        }
        assert forall|i: int| 0 <= i < all.len() implies terminal::is_written_in_full(
            #[trigger] all[i],
        ) && actions.contains(all[i]) by {
            if i < kept(before).len() {
                assert(all[i] == kept(before)[i]);
                let k = choose|k: int| 0 <= k < before.len() && before[k] == all[i];
                assert(actions[k] == all[i]);
            } else {
                assert(actions[actions.len() - 1] == all[i]);
            }
        }
    }
}

/// It makes no difference whether a C1 control is printed or executed.
proof fn lemma_executing_c1(actions: Seq<ActionView>)
    ensures
        performed(terminal::executing_all_c1(actions)) == performed(actions),
        marks_after(terminal::executing_all_c1(actions)) == marks_after(actions),
        has_no_marks(terminal::executing_all_c1(actions)) == has_no_marks(actions),
    decreases actions.len(),
{
    let all = terminal::executing_all_c1(actions);
    if actions.len() > 0 {
        lemma_executing_c1(actions.drop_last());
        assert(all.drop_last() =~= terminal::executing_all_c1(actions.drop_last()));
    }
    assert forall|i: int| 0 <= i < actions.len() implies #[trigger] prints_mark(all[i])
        == prints_mark(actions[i]) by {}
    if has_no_marks(all) {
        assert forall|i: int| 0 <= i < actions.len() implies !prints_mark(
            #[trigger] actions[i],
        ) by {
            assert(!prints_mark(all[i]));
        }
    }
}

/// Actions behind others are performed behind them, if those leave no marks to count.
proof fn lemma_performed_concat(first: Seq<ActionView>, second: Seq<ActionView>)
    requires
        marks_after(first) == 0,
    ensures
        performed(first + second) == performed(first) + performed(second),
        marks_after(first + second) == marks_after(second),
    decreases second.len(),
{
    if second.len() == 0 {
        assert(first + second =~= first);
        assert(performed(first) + performed(second) =~= performed(first));
    } else {
        assert((first + second).drop_last() =~= first + second.drop_last());
        lemma_performed_concat(first, second.drop_last());
        text::lemma_concat_associative(
            performed(first),
            performed(second.drop_last()),
            emitted(second.last(), marks_after(second.drop_last())),
        );
    }
}

/// Where no combining mark is printed there is none to count.
proof fn lemma_no_marks(actions: Seq<ActionView>)
    requires
        has_no_marks(actions),
    ensures
        marks_after(actions) == 0,
    decreases actions.len(),
{
    if actions.len() > 0 {
        assert(!prints_mark(actions[actions.len() - 1]));
        assert forall|i: int| 0 <= i < actions.len() - 1 implies !prints_mark(
            #[trigger] actions.drop_last()[i],
        ) by {
            assert(actions.drop_last()[i] == actions[i]);
        }
        lemma_no_marks(actions.drop_last());
    }
}

/// As long as nothing is given up and no combining mark is printed, pieces are filtered as
/// they are parsed.
proof fn lemma_pieces(chunks: Seq<Seq<u8>>, silence: nat, pieces: Seq<Seq<u8>>)
    requires
        silence + pieces.flatten().len() <= MAX_STRING_SEQUENCE,
        has_no_marks(terminal::parsed_in_pieces(chunks, pieces)),
    ensures
        filtered_in_pieces(chunks, silence, pieces) == performed(
            terminal::parsed_in_pieces(chunks, pieces),
        ),
    decreases pieces.len(),
{
    if pieces.len() > 0 {
        let first = terminal::parsed_actions(chunks, pieces[0]);
        let rest = terminal::parsed_in_pieces(chunks.push(pieces[0]), pieces.drop_first());
        let all = terminal::parsed_in_pieces(chunks, pieces);
        assert(pieces.flatten() == pieces[0] + pieces.drop_first().flatten());
        assert forall|i: int| 0 <= i < first.len() implies !prints_mark(#[trigger] first[i]) by {
            assert(all[i] == first[i]);
        }
        assert forall|i: int| 0 <= i < rest.len() implies !prints_mark(#[trigger] rest[i]) by {
            assert(all[first.len() + i] == rest[i]);
        }
        lemma_no_marks(first);
        lemma_performed_concat(first, rest);
        lemma_pieces(
            next_chunks(chunks, silence, pieces[0]),
            next_silence(chunks, silence, pieces[0]),
            pieces.drop_first(),
        );
    }
}

/// Whether an action belongs to an operating system command or a device control string.
pub open spec fn is_string_action(action: ActionView) -> bool {
    action is Osc || action is Hook || action is Put || action is Unhook
}

/// Operating system commands and device control strings leave no trace: the output is what
/// it would have been without them.
pub proof fn lemma_strings_leave_no_trace(actions: Seq<ActionView>)
    ensures
        performed(actions) == performed(
            actions.filter(|action: ActionView| !is_string_action(action)),
        ),
        marks_after(actions) == marks_after(
            actions.filter(|action: ActionView| !is_string_action(action)),
        ),
    decreases actions.len(),
{
    reveal(Seq::filter);
    let kept = |action: ActionView| !is_string_action(action);
    if actions.len() > 0 {
        lemma_strings_leave_no_trace(actions.drop_last());
        let rest = actions.drop_last().filter(kept);
        if kept(actions.last()) {
            assert(rest.push(actions.last()).drop_last() =~= rest);
        } else {
            assert(performed(actions) =~= performed(actions.drop_last()));
        }
    }
}

/// The characters that the terminal gets to see of a run of actions.
pub open spec fn shown(actions: Seq<ActionView>) -> Seq<char>
    decreases actions.len(),
{
    if actions.len() == 0 {
        Seq::empty()
    } else {
        let before = shown(actions.drop_last());
        match actions.last() {
            ActionView::Print(character) => if passes(
                actions.last(),
                marks_after(actions.drop_last()),
            ) {
                before.push(character)
            } else {
                before
            },
            _ => before,
        }
    }
}

/// Whether one of the nine characters from `start` on is no combining mark.
pub open spec fn has_base_from(characters: Seq<char>, start: int) -> bool {
    exists|k: int|
        start <= k <= start + COMBINING_MARKER_CONSECUTIVE_MAX && !is_mark(
            #[trigger] characters[k],
        )
}

/// No character that is shown is hidden, and among any nine that follow each other one is
/// no combining mark.
pub proof fn lemma_marks_do_not_pile_up(actions: Seq<ActionView>)
    ensures
        forall|i: int| 0 <= i < shown(actions).len() ==> !is_hidden(#[trigger] shown(actions)[i]),
        forall|i: int|
            0 <= i < shown(actions).len() - COMBINING_MARKER_CONSECUTIVE_MAX
                ==> #[trigger] has_base_from(shown(actions), i),
{
    lemma_marks_at_the_end(actions);
}

/// As many marks stand at the end of what is shown as were counted, up to the limit.
proof fn lemma_marks_at_the_end(actions: Seq<ActionView>)
    ensures
        forall|i: int| 0 <= i < shown(actions).len() ==> !is_hidden(#[trigger] shown(actions)[i]),
        forall|i: int|
            0 <= i < shown(actions).len() - COMBINING_MARKER_CONSECUTIVE_MAX
                ==> #[trigger] has_base_from(shown(actions), i),
        ({
            let run: int = if marks_after(actions) < COMBINING_MARKER_CONSECUTIVE_MAX {
                marks_after(actions) as int
            } else {
                COMBINING_MARKER_CONSECUTIVE_MAX as int
            };
            &&& run <= shown(actions).len()
            &&& run < shown(actions).len() ==> !is_mark(
                shown(actions)[shown(actions).len() - run - 1],
            )
        }),
    decreases actions.len(),
{
    if actions.len() > 0 {
        let before = actions.drop_last();
        lemma_marks_at_the_end(before);
        let all = shown(actions);
        let earlier = shown(before);
        let run: int = if marks_after(before) < COMBINING_MARKER_CONSECUTIVE_MAX {
            marks_after(before) as int
        } else {
            COMBINING_MARKER_CONSECUTIVE_MAX as int
        };
        if all.len() > earlier.len() {
            assert forall|i: int|
                0 <= i < all.len() - COMBINING_MARKER_CONSECUTIVE_MAX implies has_base_from(
                all,
                i,
            ) by {
                if i < earlier.len() - COMBINING_MARKER_CONSECUTIVE_MAX {
                    assert(has_base_from(earlier, i));
                    let k = choose|k: int|
                        i <= k <= i + COMBINING_MARKER_CONSECUTIVE_MAX && !is_mark(
                            #[trigger] earlier[k],
                        );
                    assert(all[k] == earlier[k]);
                } else if !is_mark(all.last()) {
                    assert(!is_mark(all[all.len() - 1]));
                } else {
                    assert(run < earlier.len());
                    assert(all[earlier.len() - run - 1] == earlier[earlier.len() - run - 1]);
                }
            }
        }
    }
}

/// The bytes of a control sequence without intermediates.
pub open spec fn sequence(params: Seq<Seq<u16>>, action: char) -> Seq<u8> {
    seq![0x1Bu8, 0x5Bu8] + terminal::params_bytes(params) + seq![action as u8]
}

/// What a parser makes of such a sequence.
pub open spec fn sequence_action(params: Seq<Seq<u16>>, action: char) -> ActionView {
    ActionView::Csi { params, intermediates: Seq::empty(), ignore: false, action }
}

/// Whether a sequence with this final byte is let through whatever its parameters are.
pub open spec fn is_always_let_through(action: char) -> bool {
    seq![
        'm', 'A', 'B', 'C', 'D', 'E', 'F', 'G', 'H', 'L', 'M', 'P', '@', 'X', 'K', 's', 'u', 'r',
    ].contains(action)
}

/// A sequence that styles text, moves the cursor, scrolls, edits or erases the line is let
/// through byte for byte, whatever its parameters are. So is one that erases the display, as
/// long as it does not ask for the scrollback, and an editing key.
pub proof fn lemma_sequences_pass(before: Seq<ActionView>, params: Seq<Seq<u16>>, action: char)
    ensures
        is_always_let_through(action) ==> performed(before.push(sequence_action(params, action)))
            == performed(before) + sequence(params, action),
        !params.flatten().contains(3u16) ==> performed(before.push(sequence_action(params, 'J')))
            == performed(before) + sequence(params, 'J'),
        params.len() > 0 && params[0].len() > 0 && 1 <= params[0][0] <= 8 ==> performed(
            before.push(sequence_action(params, '~')),
        ) == performed(before) + sequence(params, '~'),
{
    lemma_sequence_bytes(params, action);
    lemma_sequence_bytes(params, 'J');
    lemma_sequence_bytes(params, '~');
    assert(before.push(sequence_action(params, action)).drop_last() =~= before);
    assert(before.push(sequence_action(params, 'J')).drop_last() =~= before);
    assert(before.push(sequence_action(params, '~')).drop_last() =~= before);
    if is_always_let_through(action) {
        lemma_always_let_through(action);
        assert(is_allowed_csi(action, params));
    }
    if !params.flatten().contains(3u16) {
        assert forall|i: int| 0 <= i < params.len() implies !(#[trigger] params[i]).contains(
            3u16,
        ) by {
            lemma_flatten_contains(params, 3u16);
        }
    }
    if params.len() > 0 && params[0].len() > 0 {
        assert(params.flatten() =~= params[0] + params.drop_first().flatten());
    }
}

/// Whatever else a control sequence without intermediates asks for, nothing of it is let
/// through.
pub proof fn lemma_other_sequences_are_dropped(
    before: Seq<ActionView>,
    params: Seq<Seq<u16>>,
    action: char,
)
    ensures
        !is_always_let_through(action) && action != 'J' && action != '~' ==> performed(
            before.push(sequence_action(params, action)),
        ) == performed(before),
        params.flatten().contains(3u16) ==> performed(before.push(sequence_action(params, 'J')))
            == performed(before),
        params.len() > 0 && params[0].len() > 0 && !(1 <= params[0][0] <= 8) ==> performed(
            before.push(sequence_action(params, '~')),
        ) == performed(before),
{
    assert(before.push(sequence_action(params, action)).drop_last() =~= before);
    assert(before.push(sequence_action(params, 'J')).drop_last() =~= before);
    assert(before.push(sequence_action(params, '~')).drop_last() =~= before);
    let none = Seq::<u8>::empty();
    assert(performed(before) + none =~= performed(before));
    assert(sequence_action(params, action)->Csi_intermediates.len() == 0);
    lemma_marker_is_one();
    if !is_always_let_through(action) {
        lemma_always_let_through(action);
    }
    if params.flatten().contains(3u16) {
        lemma_flatten_contains(params, 3u16);
    }
    if params.len() > 0 && params[0].len() > 0 {
        assert(params.flatten() =~= params[0] + params.drop_first().flatten());
    }
}

/// One marker is not none.
proof fn lemma_marker_is_one()
    ensures
        seq!['?' as u8].len() == 1,
        seq![' ' as u8].len() == 1,
        seq!['?' as u8][0] != seq![' ' as u8][0],
{
}

/// Which final bytes are always let through.
proof fn lemma_always_let_through(action: char)
    ensures
        is_always_let_through(action) <==> (action == 'm' || action == 'A' || action == 'B'
            || action == 'C' || action == 'D' || action == 'E' || action == 'F' || action == 'G'
            || action == 'H' || action == 'L' || action == 'M' || action == 'P' || action == '@'
            || action == 'X' || action == 'K' || action == 's' || action == 'u' || action == 'r'),
{
    let all = seq![
        'm', 'A', 'B', 'C', 'D', 'E', 'F', 'G', 'H', 'L', 'M', 'P', '@', 'X', 'K', 's', 'u', 'r',
    ];
    assert(all[0] == 'm' && all[1] == 'A' && all[2] == 'B' && all[3] == 'C' && all[4] == 'D'
        && all[5] == 'E' && all[6] == 'F' && all[7] == 'G' && all[8] == 'H' && all[9] == 'L'
        && all[10] == 'M' && all[11] == 'P' && all[12] == '@' && all[13] == 'X' && all[14] == 'K'
        && all[15] == 's' && all[16] == 'u' && all[17] == 'r');
}

/// A number occurs in a list of lists exactly if it occurs in one of the lists.
proof fn lemma_flatten_contains(params: Seq<Seq<u16>>, number: u16)
    ensures
        params.flatten().contains(number) <==> exists|i: int|
            0 <= i < params.len() && (#[trigger] params[i]).contains(number),
    decreases params.len(),
{
    if params.len() > 0 {
        let rest = params.drop_first();
        lemma_flatten_contains(rest, number);
        let all = params.flatten();
        assert(all =~= params[0] + rest.flatten());
        if all.contains(number) {
            let k = choose|k: int| 0 <= k < all.len() && all[k] == number;
            if k < params[0].len() {
                assert(params[0][k] == number);
                assert(params[0].contains(number));
            } else {
                assert(rest.flatten()[k - params[0].len()] == number);
                assert(rest.flatten().contains(number));
                let i = choose|i: int| 0 <= i < rest.len() && (#[trigger] rest[i]).contains(number);
                assert(params[i + 1] == rest[i]);
            }
        }
        if exists|i: int| 0 <= i < params.len() && (#[trigger] params[i]).contains(number) {
            let i = choose|i: int|
                0 <= i < params.len() && (#[trigger] params[i]).contains(number);
            if i == 0 {
                let k = choose|k: int| 0 <= k < params[0].len() && params[0][k] == number;
                assert(all[k] == number);
            } else {
                assert(rest[i - 1] == params[i]);
                assert(rest.flatten().contains(number));
                let k = choose|k: int|
                    0 <= k < rest.flatten().len() && rest.flatten()[k] == number;
                assert(all[params[0].len() + k] == number);
            }
        }
    }
}

/// A sequence without intermediates is written as its parameters between its two first bytes
/// and its final byte.
proof fn lemma_sequence_bytes(params: Seq<Seq<u16>>, action: char)
    ensures
        terminal::written(sequence_action(params, action)) == sequence(params, action),
{
    reveal(Seq::filter);
    let none = Seq::<u8>::empty();
    assert(none.filter(|byte: u8| terminal::is_private_marker(byte)) =~= none);
    assert(none.filter(|byte: u8| !terminal::is_private_marker(byte)) =~= none);
    assert(terminal::csi_bytes(params, none, action) =~= sequence(params, action));
}

/// A new filter gives such a sequence back, byte for byte.
pub proof fn lemma_sequences_come_back(params: Seq<Seq<u16>>, action: char)
    requires
        is_always_let_through(action) || (action == 'J' && !params.flatten().contains(3u16)) || (
        action == '~' && params.len() > 0 && params[0].len() > 0 && 1 <= params[0][0] <= 8),
        terminal::parsed_actions(Seq::empty(), sequence(params, action)) == seq![
            sequence_action(params, action),
        ],
    ensures
        filtered(Seq::empty(), sequence(params, action)) == sequence(params, action),
{
    let none = Seq::<ActionView>::empty();
    lemma_sequences_pass(none, params, action);
    assert(none.push(sequence_action(params, action)) =~= seq![sequence_action(params, action)]);
    assert(performed(none) + sequence(params, action) =~= sequence(params, action));
}

/// Whether the guest may switch a private mode, by its number.
pub open spec fn is_listed_mode(mode: u16) -> bool {
    seq![
        1u16, 25, 47, 1000, 1002, 1003, 1004, 1005, 1006, 1015, 1047, 1049, 2004, 2026,
    ].contains(mode)
}

/// What a parser makes of a control sequence with one intermediate.
pub open spec fn marked_action(params: Seq<Seq<u16>>, marker: u8, action: char) -> ActionView {
    ActionView::Csi { params, intermediates: seq![marker], ignore: false, action }
}

/// Private modes are set and reset, byte for byte, exactly if each of them is listed. Nothing
/// else with a question mark is let through.
pub proof fn lemma_private_modes(before: Seq<ActionView>, params: Seq<Seq<u16>>, action: char)
    requires
        forall|i: int| 0 <= i < params.len() ==> (#[trigger] params[i]).len() > 0,
    ensures
        performed(before.push(marked_action(params, 0x3F, action))) == performed(before) + (if (
        action == 'h' || action == 'l') && (forall|i: int|
            0 <= i < params.len() ==> is_listed_mode((#[trigger] params[i])[0])) {
            seq![0x1Bu8, 0x5Bu8, 0x3Fu8] + terminal::params_bytes(params) + seq![action as u8]
        } else {
            Seq::empty()
        }),
{
    reveal(Seq::filter);
    let marker = seq![0x3Fu8];
    let none = Seq::<u8>::empty();
    assert(before.push(marked_action(params, 0x3F, action)).drop_last() =~= before);
    assert(marker.drop_last() =~= none);
    assert(none.filter(|byte: u8| terminal::is_private_marker(byte)) =~= none);
    assert(none.filter(|byte: u8| !terminal::is_private_marker(byte)) =~= none);
    assert(marker.filter(|byte: u8| terminal::is_private_marker(byte)) =~= marker);
    assert(marker.filter(|byte: u8| !terminal::is_private_marker(byte)) =~= none);
    assert(terminal::csi_bytes(params, marker, action) =~= seq![0x1Bu8, 0x5Bu8, 0x3Fu8]
        + terminal::params_bytes(params) + seq![action as u8]);
    lemma_all_kept(params);
    assert(marker.len() == 1 && marker[0] == '?' as u8 && seq![' ' as u8][0] != marker[0]);
    assert(marker =~= seq!['?' as u8]);
    assert forall|mode: u16| is_allowed_private_mode(mode) == #[trigger] is_listed_mode(mode) by {
        lemma_listed_modes(mode);
    }
    let numbers = modes(params);
    assert(numbers.len() == params.len());
    assert forall|i: int| 0 <= i < params.len() implies numbers[i] == (#[trigger] params[i])[0] by {}
    if forall|i: int| 0 <= i < params.len() ==> is_listed_mode((#[trigger] params[i])[0]) {
        assert forall|i: int| 0 <= i < numbers.len() implies is_allowed_private_mode(
            #[trigger] numbers[i],
        ) by {
            assert(is_listed_mode(params[i][0]));
        }
    } else {
        let i = choose|i: int| 0 <= i < params.len() && !is_listed_mode((#[trigger] params[i])[0]);
        assert(!is_allowed_private_mode(numbers[i]));
    }
}

/// Which modes are listed.
proof fn lemma_listed_modes(mode: u16)
    ensures
        is_listed_mode(mode) <==> (mode == 1 || mode == 25 || mode == 47 || mode == 1000 || mode
            == 1002 || mode == 1003 || mode == 1004 || mode == 1005 || mode == 1006 || mode == 1015
            || mode == 1047 || mode == 1049 || mode == 2004 || mode == 2026),
{
    let all = seq![
        1u16, 25, 47, 1000, 1002, 1003, 1004, 1005, 1006, 1015, 1047, 1049, 2004, 2026,
    ];
    assert(all[0] == 1 && all[1] == 25 && all[2] == 47 && all[3] == 1000 && all[4] == 1002 && all[5]
        == 1003 && all[6] == 1004 && all[7] == 1005 && all[8] == 1006 && all[9] == 1015 && all[10]
        == 1047 && all[11] == 1049 && all[12] == 2004 && all[13] == 2026);
}

/// Nothing is filtered out of parameters that each have a number.
proof fn lemma_all_kept(params: Seq<Seq<u16>>)
    requires
        forall|i: int| 0 <= i < params.len() ==> (#[trigger] params[i]).len() > 0,
    ensures
        params.filter(|param: Seq<u16>| param.len() > 0) == params,
    decreases params.len(),
{
    reveal(Seq::filter);
    if params.len() > 0 {
        assert forall|i: int| 0 <= i < params.len() - 1 implies (
        #[trigger] params.drop_last()[i]).len() > 0 by {
            assert(params.drop_last()[i] == params[i]);
        }
        lemma_all_kept(params.drop_last());
        assert(params[params.len() - 1].len() > 0);
        assert(params.drop_last().push(params.last()) =~= params);
    }
}

/// The shape of the cursor is set whatever the parameters are. Nothing else with a space is let
/// through.
pub proof fn lemma_cursor_style(before: Seq<ActionView>, params: Seq<Seq<u16>>, action: char)
    ensures
        performed(before.push(marked_action(params, 0x20, action))) == performed(before) + (
        if action == 'q' {
            seq![0x1Bu8, 0x5Bu8] + terminal::params_bytes(params) + seq![0x20u8, 0x71u8]
        } else {
            Seq::empty()
        }),
{
    reveal(Seq::filter);
    let marker = seq![0x20u8];
    let none = Seq::<u8>::empty();
    assert(before.push(marked_action(params, 0x20, action)).drop_last() =~= before);
    assert(marker.drop_last() =~= none);
    assert(none.filter(|byte: u8| terminal::is_private_marker(byte)) =~= none);
    assert(none.filter(|byte: u8| !terminal::is_private_marker(byte)) =~= none);
    assert(marker.filter(|byte: u8| terminal::is_private_marker(byte)) =~= none);
    assert(marker.filter(|byte: u8| !terminal::is_private_marker(byte)) =~= marker);
    assert(marker.len() == 1 && marker[0] == ' ' as u8 && seq!['?' as u8][0] != marker[0]);
    assert(marker =~= seq![' ' as u8]);
    assert(terminal::csi_bytes(params, marker, 'q') =~= seq![0x1Bu8, 0x5Bu8]
        + terminal::params_bytes(params) + seq![0x20u8, 0x71u8]);
}

/// Nothing is let through of a control sequence that the parser gave up on, or one with any
/// other intermediates.
pub proof fn lemma_strange_sequences_are_dropped(
    before: Seq<ActionView>,
    params: Seq<Seq<u16>>,
    intermediates: Seq<u8>,
    ignore: bool,
    action: char,
)
    ensures
        ignore || intermediates.len() > 1 || (intermediates.len() == 1 && intermediates[0] != 0x3F
            && intermediates[0] != 0x20) ==> performed(
            before.push(ActionView::Csi { params, intermediates, ignore, action }),
        ) == performed(before),
{
    let all = before.push(ActionView::Csi { params, intermediates, ignore, action });
    assert(all.drop_last() =~= before);
    assert(performed(before) + Seq::<u8>::empty() =~= performed(before));
    assert(seq!['?' as u8].len() == 1 && seq!['?' as u8][0] == 0x3F);
    assert(seq![' ' as u8].len() == 1 && seq![' ' as u8][0] == 0x20);
}

/// Of escape sequences those that save and restore the cursor, move it, or set a tab stop are
/// let through, and no others.
pub proof fn lemma_escape_sequences(
    before: Seq<ActionView>,
    intermediates: Seq<u8>,
    ignore: bool,
    byte: u8,
)
    ensures
        performed(before.push(ActionView::Esc { intermediates, ignore, byte })) == performed(before)
            + (if !ignore && intermediates.len() == 0 && (byte == 0x37 || byte == 0x38 || byte
            == 0x44 || byte == 0x45 || byte == 0x48 || byte == 0x4D) {
            seq![0x1Bu8, byte]
        } else {
            Seq::empty()
        }),
{
    let all = before.push(ActionView::Esc { intermediates, ignore, byte });
    assert(all.drop_last() =~= before);
}

/// Of control bytes all are let through but NUL and the C1 controls.
pub proof fn lemma_control_bytes(before: Seq<ActionView>, byte: u8)
    ensures
        performed(before.push(ActionView::Execute(byte))) == performed(before) + (if byte == 0
            || 128 <= byte <= 159 {
            Seq::empty()
        } else {
            seq![byte]
        }),
{
    assert(before.push(ActionView::Execute(byte)).drop_last() =~= before);
}

/// A character that is no mark is shown exactly if it is neither a format character nor a C1
/// control. What is not printed does not change how many marks have piled up.
pub proof fn lemma_characters(before: Seq<ActionView>, character: char, action: ActionView)
    requires
        !is_mark(character),
    ensures
        performed(before.push(ActionView::Print(character))) == performed(before) + (
        if terminal::general_category(character) == Category::Format || '\u{80}' <= character
            <= '\u{9F}' {
            Seq::empty()
        } else {
            vstd::utf8::encode_utf8(seq![character])
        }),
        action !is Print ==> marks_after(before.push(action)) == marks_after(before),
{
    assert(before.push(ActionView::Print(character)).drop_last() =~= before);
    assert(before.push(action).drop_last() =~= before);
}

/// The action that prints a character.
pub open spec fn print_action(character: char) -> ActionView {
    ActionView::Print(character)
}

/// The actions that print a text.
pub open spec fn printing(characters: Seq<char>) -> Seq<ActionView> {
    characters.map_values(|character: char| print_action(character))
}

/// Of the marks behind a character the first eight are shown, and no more.
pub proof fn lemma_first_marks_are_shown(before: Seq<ActionView>, base: char, marks: Seq<char>)
    requires
        !is_hidden(base),
        !is_mark(base),
        forall|i: int| 0 <= i < marks.len() ==> is_mark(#[trigger] marks[i]) && !is_hidden(marks[i]),
    ensures
        performed(before.push(ActionView::Print(base)) + printing(marks)) == performed(before)
            + vstd::utf8::encode_utf8(
            seq![base] + (if marks.len() > 8 {
                marks.take(8)
            } else {
                marks
            }),
        ),
        marks_after(before.push(ActionView::Print(base)) + printing(marks)) == marks.len(),
    decreases marks.len(),
{
    let start = before.push(ActionView::Print(base));
    let all = start + printing(marks);
    if marks.len() == 0 {
        assert(all =~= start);
        assert(start.drop_last() =~= before);
        assert(seq![base] + marks =~= seq![base]);
    } else {
        let rest = marks.drop_last();
        assert forall|i: int| 0 <= i < rest.len() implies is_mark(#[trigger] rest[i]) && !is_hidden(
            rest[i],
        ) by {
            assert(rest[i] == marks[i]);
        }
        lemma_first_marks_are_shown(before, base, rest);
        assert(all.drop_last() =~= start + printing(rest));
        let last = marks[marks.len() - 1];
        assert(all.last() == ActionView::Print(last));
        let earlier = seq![base] + (if rest.len() > 8 {
            rest.take(8)
        } else {
            rest
        });
        let kept = seq![base] + (if marks.len() > 8 {
            marks.take(8)
        } else {
            marks
        });
        if rest.len() < 8 {
            lemma_encoding_concat(earlier, seq![last]);
            assert(kept =~= earlier + seq![last]);
            text::lemma_concat_associative(
                performed(before),
                vstd::utf8::encode_utf8(earlier),
                vstd::utf8::encode_utf8(seq![last]),
            );
        } else {
            assert(kept =~= earlier);
            assert(performed(all) =~= performed(all.drop_last()));
        }
    }
}

/// A sequence is given up when more than 4096 bytes in a row have shown nothing, and then the
/// parser starts anew. Otherwise the parser goes on. Whatever is shown ends the count.
pub proof fn lemma_giving_up(chunks: Seq<Seq<u8>>, silence: nat, input: Seq<u8>)
    ensures
        filtered(chunks, input).len() > 0 ==> next_chunks(chunks, silence, input) == chunks.push(
            input,
        ) && next_silence(chunks, silence, input) == 0,
        filtered(chunks, input).len() == 0 && silence + input.len() <= 4096 ==> next_chunks(
            chunks,
            silence,
            input,
        ) == chunks.push(input) && next_silence(chunks, silence, input) == silence + input.len(),
        filtered(chunks, input).len() == 0 && silence + input.len() > 4096 ==> next_chunks(
            chunks,
            silence,
            input,
        ).len() == 0 && next_silence(chunks, silence, input) == 0,
{
}

/// Which characters are format characters and which change how the one before them looks.
pub proof fn lemma_kinds_of_characters(character: char, format: bool, mark: bool)
    requires
        call_ensures(is_format_char, (character,), format),
        call_ensures(is_combining_mark, (character,), mark),
    ensures
        format <==> terminal::general_category(character) == Category::Format,
        mark <==> terminal::general_category(character) == Category::NonspacingMark
            || terminal::general_category(character) == Category::SpacingMark
            || terminal::general_category(character) == Category::EnclosingMark,
        is_mark(character) == mark,
{
}

/// What a filter adds to its output is what the parser made of the input, performed from where
/// the parser was, and what was there before stays.
pub proof fn lemma_output_grows(filter: &mut AnsiFilter, input: &[u8], output: &mut Vec<u8>)
    requires
        call_ensures(AnsiFilter::filter, (filter, input, output), ()),
    ensures
        final(output)@.len() >= old(output)@.len(),
        final(output)@.take(old(output)@.len() as int) == old(output)@,
        final(output)@.skip(old(output)@.len() as int) == performed(
            terminal::parsed_actions(old(filter).chunks(), input@),
        ),
        final(output)@.len() > old(output)@.len() ==> final(filter).silence() == 0
            && final(filter).chunks() == old(filter).chunks().push(input@),
        final(output)@.len() == old(output)@.len() && old(filter).silence() + input@.len() > 4096
            ==> final(filter).silence() == 0 && final(filter).chunks().len() == 0,
        final(output)@.len() == old(output)@.len() && old(filter).silence() + input@.len() <= 4096
            ==> final(filter).silence() == old(filter).silence() + input@.len()
            && final(filter).chunks() == old(filter).chunks().push(input@),
{
    let added = performed(terminal::parsed_actions(old(filter).chunks(), input@));
    assert(final(output)@ == old(output)@ + added);
    assert(final(output)@.take(old(output)@.len() as int) =~= old(output)@);
    assert(final(output)@.skip(old(output)@.len() as int) =~= added);
}

} // verus!
