//! What the guest asks of the terminal, as the `vte` parser reads it, and the Unicode
//! categories the filter tells apart.
use vstd::prelude::*;

use crate::text;

verus! {

/// The escape character.
pub const ANSI_ESC: u8 = 0x1B;

/// The escape sequence parser of the `vte` crate.
#[verifier::external_type_specification]
#[verifier::external_body]
pub struct ExParser<const OSC_RAW_BUF_SIZE: usize>(vte::Parser<OSC_RAW_BUF_SIZE>);

/// The parameter list that `vte` hands to a performer.
#[verifier::external_type_specification]
#[verifier::external_body]
pub struct ExParams(vte::Params);

/// The chunks that a parser has been advanced over since it was created.
pub uninterp spec fn parser_chunks(parser: vte::Parser) -> Seq<Seq<u8>>;

/// The parameters of a list in their order, each with its subparameters.
pub uninterp spec fn parameter_list(params: vte::Params) -> Seq<Seq<u16>>;

/// The actions that a parser asks for on `input`, after it was advanced over `chunks`.
pub uninterp spec fn parsed_actions(chunks: Seq<Seq<u8>>, input: Seq<u8>) -> Seq<ActionView>;

/// The general category of a character.
pub uninterp spec fn general_category(character: char) -> Category;

/// One action that the terminal is asked to perform.
pub enum Action {
    /// Draw a character.
    Print(char),
    /// Execute a control function.
    Execute(u8),
    /// A complete control sequence.
    Csi { params: Vec<Vec<u16>>, intermediates: Vec<u8>, ignore: bool, action: char },
    /// A complete escape sequence.
    Esc { intermediates: Vec<u8>, ignore: bool, byte: u8 },
    /// A complete operating system command.
    Osc,
    /// The start of a device control string.
    Hook,
    /// A byte of a device control string.
    Put,
    /// The end of a device control string.
    Unhook,
}

/// The mathematical value of an [`Action`].
pub enum ActionView {
    Print(char),
    Execute(u8),
    Csi { params: Seq<Seq<u16>>, intermediates: Seq<u8>, ignore: bool, action: char },
    Esc { intermediates: Seq<u8>, ignore: bool, byte: u8 },
    Osc,
    Hook,
    Put,
    Unhook,
}

impl View for Action {
    type V = ActionView;

    open spec fn view(&self) -> ActionView {
        match self {
            Action::Print(character) => ActionView::Print(*character),
            Action::Execute(byte) => ActionView::Execute(*byte),
            Action::Csi { params, intermediates, ignore, action } => ActionView::Csi {
                params: params_view(params@),
                intermediates: intermediates@,
                ignore: *ignore,
                action: *action,
            },
            Action::Esc { intermediates, ignore, byte } => ActionView::Esc {
                intermediates: intermediates@,
                ignore: *ignore,
                byte: *byte,
            },
            Action::Osc => ActionView::Osc,
            Action::Hook => ActionView::Hook,
            Action::Put => ActionView::Put,
            Action::Unhook => ActionView::Unhook,
        }
    }
}

/// The values of a vector of parameters.
pub open spec fn params_view(params: Seq<Vec<u16>>) -> Seq<Seq<u16>> {
    params.map_values(|param: Vec<u16>| param@)
}

/// The values of a vector of actions.
pub open spec fn actions_view(actions: Seq<Action>) -> Seq<ActionView> {
    actions.map_values(|action: Action| action@)
}

/// Whether the bytes are ASCII characters and controls without the escape character.
pub open spec fn is_plain(bytes: Seq<u8>) -> bool {
    forall|i: int| 0 <= i < bytes.len() ==> #[trigger] bytes[i] < 0x80 && bytes[i] != 0x1B
}

/// Whether each of the chunks is plain.
pub open spec fn all_plain(chunks: Seq<Seq<u8>>) -> bool {
    forall|i: int| 0 <= i < chunks.len() ==> is_plain(#[trigger] chunks[i])
}

/// The action that a plain byte stands for.
pub open spec fn plain_action(byte: u8) -> ActionView {
    if byte < 0x20 {
        ActionView::Execute(byte)
    } else {
        ActionView::Print(byte as char)
    }
}

/// The actions that plain bytes stand for.
pub open spec fn plain_actions(bytes: Seq<u8>) -> Seq<ActionView> {
    bytes.map_values(|byte: u8| plain_action(byte))
}

/// Whether an action carries what a parser can put into it: a printed character is no C0
/// control, an executed byte is a C0 control other than ESC, or a C1 control.
pub open spec fn is_parser_action(action: ActionView) -> bool {
    match action {
        ActionView::Print(character) => character >= '\u{20}',
        ActionView::Execute(byte) => (byte < 0x20 && byte != 0x1B) || 0x80 <= byte <= 0x9F,
        _ => true,
    }
}

/// Whether a character is a C1 control.
pub open spec fn is_c1(character: char) -> bool {
    '\u{80}' <= character <= '\u{9F}'
}

/// Whether an intermediate byte of a control sequence stands before its parameters.
pub open spec fn is_private_marker(byte: u8) -> bool {
    0x3C <= byte <= 0x3F
}

/// One parameter of a control sequence: its subparameters in decimal, separated by colons.
pub open spec fn param_bytes(param: Seq<u16>) -> Seq<u8> {
    text::joined(param.map_values(|n: u16| text::ascii(text::decimal(n as nat))), ':' as u8)
}

/// The parameters of a control sequence, separated by semicolons.
pub open spec fn params_bytes(params: Seq<Seq<u16>>) -> Seq<u8> {
    text::joined(params.map_values(|param: Seq<u16>| param_bytes(param)), ';' as u8)
}

/// The bytes of a control sequence: its introducer, the private markers, the parameters, the
/// other intermediates and the final byte.
pub open spec fn csi_bytes(params: Seq<Seq<u16>>, intermediates: Seq<u8>, action: char) -> Seq<u8> {
    seq![ANSI_ESC, '[' as u8] + intermediates.filter(|byte: u8| is_private_marker(byte))
        + params_bytes(params) + intermediates.filter(|byte: u8| !is_private_marker(byte))
        + seq![action as u8]
}

/// The bytes that ask for an action. Strings are not written.
pub open spec fn written(action: ActionView) -> Seq<u8> {
    match action {
        ActionView::Print(character) => vstd::utf8::encode_utf8(seq![character]),
        ActionView::Execute(byte) => seq![byte],
        ActionView::Csi { params, intermediates, action, .. } => csi_bytes(
            params,
            intermediates,
            action,
        ),
        ActionView::Esc { byte, .. } => seq![ANSI_ESC, byte],
        _ => Seq::empty(),
    }
}

/// The bytes that ask for a run of actions.
pub open spec fn written_all(actions: Seq<ActionView>) -> Seq<u8>
    decreases actions.len(),
{
    if actions.len() == 0 {
        Seq::empty()
    } else {
        written_all(actions.drop_last()) + written(actions.last())
    }
}

/// Whether an action that a parser asked for is in what is written of it: nothing of it was
/// left out, and it is no C1 control and no part of a string.
pub open spec fn is_written_in_full(action: ActionView) -> bool {
    match action {
        ActionView::Print(character) => !is_c1(character),
        ActionView::Execute(byte) => byte < 0x80,
        ActionView::Csi { ignore, .. } => !ignore,
        ActionView::Esc { intermediates, ignore, .. } => !ignore && intermediates.len() == 0,
        _ => false,
    }
}

/// The actions that a parser asks for on pieces that come one after the other.
pub open spec fn parsed_in_pieces(chunks: Seq<Seq<u8>>, pieces: Seq<Seq<u8>>) -> Seq<ActionView>
    decreases pieces.len(),
{
    if pieces.len() == 0 {
        Seq::empty()
    } else {
        parsed_actions(chunks, pieces[0]) + parsed_in_pieces(
            chunks.push(pieces[0]),
            pieces.drop_first(),
        )
    }
}

/// Whether the last byte that was read is the first one of a character of two bytes.
pub open spec fn ends_in_half_a_character(chunks: Seq<Seq<u8>>) -> bool {
    chunks.flatten().len() > 0 && 0xC2 <= chunks.flatten().last() <= 0xDF
}

/// Whether a parser that waits for the second byte of a character may lose the character
/// behind it: an ASCII character between that byte and another one that is not ASCII.
pub open spec fn may_lose_a_character(chunks: Seq<Seq<u8>>, piece: Seq<u8>) -> bool {
    &&& ends_in_half_a_character(chunks)
    &&& piece.len() >= 3
    &&& 0x80 <= piece[0] <= 0xBF
    &&& piece[1] < 0x80
    &&& piece[2] >= 0x80
}

/// Whether the pieces make up the input, and behind `chunks` no character is lost where one
/// was cut.
pub open spec fn is_cut_of(
    chunks: Seq<Seq<u8>>,
    pieces: Seq<Seq<u8>>,
    input: Seq<u8>,
) -> bool {
    &&& pieces.flatten() == input
    &&& !may_lose_a_character(chunks, input)
    &&& forall|i: int|
        0 <= i < pieces.len() ==> !may_lose_a_character(
            chunks + pieces.take(i),
            #[trigger] pieces[i],
        )
}

/// An action, with a C1 control as one that is executed, not printed.
pub open spec fn executing_c1(action: ActionView) -> ActionView {
    match action {
        ActionView::Print(character) => if is_c1(character) {
            ActionView::Execute(character as u8)
        } else {
            action
        },
        _ => action,
    }
}

/// Actions, with C1 controls as such that are executed, not printed.
pub open spec fn executing_all_c1(actions: Seq<ActionView>) -> Seq<ActionView> {
    actions.map_values(|action: ActionView| executing_c1(action))
}

/// Whether a character that an action prints occurs in the text or stands for bytes that make
/// up no character.
pub open spec fn prints_of(action: ActionView, text: Seq<char>) -> bool {
    action matches ActionView::Print(character) ==> text.contains(character) || character
        == '\u{FFFD}'
}

/// Collects the actions that a parser asks for, in the order in which they come.
pub struct Recorder {
    pub actions: Vec<Action>,
}

impl vte::Perform for Recorder {
    fn print(&mut self, character: char)
        ensures
            actions_view(final(self).actions@) == actions_view(old(self).actions@).push(
                ActionView::Print(character),
            ),
    {
        self.record(Action::Print(character));
    }

    fn execute(&mut self, byte: u8)
        ensures
            actions_view(final(self).actions@) == actions_view(old(self).actions@).push(
                ActionView::Execute(byte),
            ),
    {
        self.record(Action::Execute(byte));
    }

    fn hook(
        &mut self,
        _params: &vte::Params,
        _intermediates: &[u8],
        _ignore: bool,
        _action: char,
    )
        ensures
            actions_view(final(self).actions@) == actions_view(old(self).actions@).push(
                ActionView::Hook,
            ),
    {
        self.record(Action::Hook);
    }

    fn put(&mut self, _byte: u8)
        ensures
            actions_view(final(self).actions@) == actions_view(old(self).actions@).push(
                ActionView::Put,
            ),
    {
        self.record(Action::Put);
    }

    fn unhook(&mut self)
        ensures
            actions_view(final(self).actions@) == actions_view(old(self).actions@).push(
                ActionView::Unhook,
            ),
    {
        self.record(Action::Unhook);
    }

    fn osc_dispatch(&mut self, _params: &[&[u8]], _bell_terminated: bool)
        ensures
            actions_view(final(self).actions@) == actions_view(old(self).actions@).push(
                ActionView::Osc,
            ),
    {
        self.record(Action::Osc);
    }

    fn csi_dispatch(
        &mut self,
        params: &vte::Params,
        intermediates: &[u8],
        ignore: bool,
        action: char,
    )
        ensures
            actions_view(final(self).actions@) == actions_view(old(self).actions@).push(
                ActionView::Csi {
                    params: parameter_list(*params),
                    intermediates: intermediates@,
                    ignore,
                    action,
                },
            ),
    {
        let params: Vec<Vec<u16>> = parameters(params);
        let intermediates: Vec<u8> = vstd::slice::slice_to_vec(intermediates);
        self.record(Action::Csi { params, intermediates, ignore, action });
    }

    fn esc_dispatch(&mut self, intermediates: &[u8], ignore: bool, byte: u8)
        ensures
            actions_view(final(self).actions@) == actions_view(old(self).actions@).push(
                ActionView::Esc { intermediates: intermediates@, ignore, byte },
            ),
    {
        let intermediates: Vec<u8> = vstd::slice::slice_to_vec(intermediates);
        self.record(Action::Esc { intermediates, ignore, byte });
    }
}

impl Recorder {
    /// Puts an action behind the others.
    pub fn record(&mut self, action: Action)
        ensures
            actions_view(final(self).actions@) == actions_view(old(self).actions@).push(action@),
    {
        self.actions.push(action);
        assert(actions_view(self.actions@) =~= actions_view(old(self).actions@).push(action@));
    }
}

/// `vte::Params::iter` goes over the parameters in their order, each as a slice of its
/// subparameters. The result holds a copy of each slice.
#[verifier::external_body]
fn parameters(params: &vte::Params) -> (list: Vec<Vec<u16>>)
    ensures
        params_view(list@) == parameter_list(*params),
{
    params.iter().map(|param| param.to_vec()).collect()
}

/// `vte::Parser::new_with_size` makes a parser that has not been advanced over anything.
#[verifier::external_body]
pub(crate) fn new_parser() -> (parser: vte::Parser)
    ensures
        parser_chunks(parser) == Seq::<Seq<u8>>::empty(),
{
    vte::Parser::new_with_size()
}

/// `vte::Parser::advance` moves the parser over `input` and calls the performer for each
/// action on the way. Which actions those are depends on the chunks it was advanced over
/// before, with their boundaries, and on `input`. Beside that the contract claims:
///
/// - On plain bytes a parser that has only seen plain bytes asks for one action per byte.
/// - Of a text in UTF-8 a new parser prints only characters of the text, and the replacement
///   character where a device control string ends inside a character.
/// - It does not matter how `input` is cut into pieces, but for C1 controls: one of two bytes
///   that come in different pieces is printed, not executed. Where the parser waits for the
///   second of two bytes of a character it may lose the character behind it; such pieces are
///   left out.
/// - A new parser that reads what some of the actions are written as asks for those actions.
#[verifier::external_body]
pub(crate) fn advance(parser: &mut vte::Parser, input: &[u8]) -> (actions: Vec<Action>)
    ensures
        parser_chunks(*final(parser)) == parser_chunks(*old(parser)).push(input@),
        actions_view(actions@) == parsed_actions(parser_chunks(*old(parser)), input@),
        forall|i: int| 0 <= i < actions@.len() ==> is_parser_action((#[trigger] actions@[i])@),
        is_plain(input@) && all_plain(parser_chunks(*old(parser))) ==> actions_view(actions@)
            == plain_actions(input@),
        parser_chunks(*old(parser)).len() == 0 ==> forall|string: Seq<char>, i: int|
            #![trigger vstd::utf8::encode_utf8(string), actions@[i]]
            input@ == vstd::utf8::encode_utf8(string) && 0 <= i < actions@.len() ==> prints_of(
                actions@[i]@,
                string,
            ),
        forall|pieces: Seq<Seq<u8>>| #[trigger]
            is_cut_of(parser_chunks(*old(parser)), pieces, input@) ==> executing_all_c1(actions_view(actions@))
                == executing_all_c1(parsed_in_pieces(parser_chunks(*old(parser)), pieces)),
        forall|kept: Seq<ActionView>|
            (forall|i: int|
                0 <= i < kept.len() ==> is_written_in_full(#[trigger] kept[i]) && actions_view(
                    actions@,
                ).contains(kept[i])) ==> parsed_actions(
                Seq::empty(),
                #[trigger] written_all(kept),
            ) == kept,
{
    let mut recorder = Recorder { actions: Vec::new() };
    parser.advance(&mut recorder, input);
    recorder.actions
}

/// The categories of characters that the filter treats differently.
#[derive(Clone, Copy, Debug, PartialEq, Eq, Structural)]
pub enum Category {
    Format,
    NonspacingMark,
    SpacingMark,
    EnclosingMark,
    Other,
}

/// `unicode_general_category::get_general_category` looks a character up in the Unicode
/// tables. Neither an ASCII character nor the replacement character is a format character or a
/// mark.
#[verifier::external_body]
pub(crate) fn category(character: char) -> (category: Category)
    ensures
        category == general_category(character),
        character <= '\u{7F}' || character == '\u{FFFD}' ==> category == Category::Other,
{
    match unicode_general_category::get_general_category(character) {
        unicode_general_category::GeneralCategory::Format => Category::Format,
        unicode_general_category::GeneralCategory::NonspacingMark => Category::NonspacingMark,
        unicode_general_category::GeneralCategory::SpacingMark => Category::SpacingMark,
        unicode_general_category::GeneralCategory::EnclosingMark => Category::EnclosingMark,
        _ => Category::Other,
    }
}

/// Parameters are written in their order with semicolons between them, their subparameters with
/// colons between those, and each number in decimal.
pub proof fn lemma_written_parameters(
    params: Seq<Seq<u16>>,
    param: Seq<u16>,
    number: u16,
)
    ensures
        param_bytes(seq![number]) == text::ascii(text::decimal(number as nat)),
        param.len() > 0 ==> param_bytes(param.push(number)) == param_bytes(param) + seq![0x3Au8]
            + text::ascii(text::decimal(number as nat)),
        params_bytes(seq![param]) == param_bytes(param),
        params.len() > 0 ==> params_bytes(params.push(param)) == params_bytes(params) + seq![0x3Bu8]
            + param_bytes(param),
        params_bytes(Seq::empty()).len() == 0,
{
    let digits = |n: u16| text::ascii(text::decimal(n as nat));
    let bytes = |param: Seq<u16>| param_bytes(param);
    let numbers = param.map_values(digits);
    let lists = params.map_values(bytes);
    assert(param.push(number).map_values(digits) =~= numbers.push(digits(number)));
    assert(params.push(param).map_values(bytes) =~= lists.push(bytes(param)));
    text::lemma_joined_push(numbers, digits(number), 0x3Au8);
    text::lemma_joined_push(lists, bytes(param), 0x3Bu8);
    let no_number = Seq::<u16>::empty();
    let no_param = Seq::<Seq<u16>>::empty();
    assert(no_number.push(number) =~= seq![number]);
    assert(no_param.push(param) =~= seq![param]);
    assert(no_number.push(number).map_values(digits) =~= Seq::<Seq<u8>>::empty().push(
        digits(number),
    ));
    assert(no_param.push(param).map_values(bytes) =~= Seq::<Seq<u8>>::empty().push(bytes(param)));
    text::lemma_joined_push(Seq::<Seq<u8>>::empty(), digits(number), 0x3Au8);
    text::lemma_joined_push(Seq::<Seq<u8>>::empty(), bytes(param), 0x3Bu8);
    assert(no_param.map_values(bytes) =~= Seq::<Seq<u8>>::empty());
}

/// An action is recorded behind those before it, which stay as they are.
pub proof fn lemma_recording(recorder: &mut Recorder, action: Action)
    requires
        call_ensures(Recorder::record, (recorder, action), ()),
    ensures
        ({
            let before = actions_view(old(recorder).actions@);
            let after = actions_view(final(recorder).actions@);
            &&& after.len() == before.len() + 1
            &&& before.is_prefix_of(after)
            &&& action matches Action::Print(character) ==> after.last() == ActionView::Print(
                character,
            )
            &&& action matches Action::Execute(byte) ==> after.last() == ActionView::Execute(byte)
            &&& action matches Action::Csi { params, intermediates, ignore, action } ==> (
            after.last() matches ActionView::Csi {
                params: numbers,
                intermediates: bytes,
                ignore: skipped,
                action: last,
            } && numbers.len() == params@.len() && (forall|i: int|
                0 <= i < numbers.len() ==> #[trigger] numbers[i] == params@[i]@) && bytes
                == intermediates@ && skipped == ignore && last == action)
            &&& action matches Action::Esc { intermediates, ignore, byte } ==> after.last()
                == (ActionView::Esc { intermediates: intermediates@, ignore, byte })
        }),
{
    let before = actions_view(old(recorder).actions@);
    let after = actions_view(final(recorder).actions@);
    assert(after == before.push(action@));
    assert(after.take(before.len() as int) =~= before);
}

} // verus!
