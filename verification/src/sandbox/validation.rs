//! Validation reports and rules, as the `garde` crate has them.
use vstd::prelude::*;

use crate::text;

verus! {

/// A list of errors, each with the path of the field it is about.
#[verifier::external_type_specification]
#[verifier::external_body]
pub struct ExReport(garde::Report);

/// The path of a field.
#[verifier::external_type_specification]
#[verifier::external_body]
pub struct ExPath(garde::Path);

/// One step on the way to a field.
pub enum Component {
    /// A field with this name.
    Key(Seq<char>),
    /// The item with this number.
    Index(nat),
    /// The value inside an option.
    Inner,
}

/// One error of a report.
pub struct Entry {
    pub path: Seq<Component>,
    pub message: Seq<char>,
}

/// The components of a path, from the outermost one on.
pub uninterp spec fn path_components(path: garde::Path) -> Seq<Component>;

/// The errors of a report, in the order in which they were appended.
pub uninterp spec fn report_entries(report: garde::Report) -> Seq<Entry>;

/// Whether a text is the address of a host, as version 4 or 6 of the internet protocol
/// writes it.
pub uninterp spec fn is_ip_address(text: Seq<char>) -> bool;

/// The text of one component, behind `earlier` others.
pub open spec fn component_text(component: Component, earlier: nat) -> Seq<char> {
    match component {
        Component::Key(name) => if earlier > 0 { seq!['.'] + name } else { name },
        Component::Index(number) => seq!['['] + text::decimal(number) + seq![']'],
        Component::Inner => Seq::empty(),
    }
}

/// The text of a path: `a.b[0].c`.
pub open spec fn path_text(path: Seq<Component>) -> Seq<char>
    decreases path.len(),
{
    if path.len() == 0 {
        Seq::empty()
    } else {
        path_text(path.drop_last()) + component_text(path.last(), (path.len() - 1) as nat)
    }
}

/// The text of a report: a line for each error, with its path unless that is empty.
pub open spec fn report_text(entries: Seq<Entry>) -> Seq<char>
    decreases entries.len(),
{
    if entries.len() == 0 {
        Seq::empty()
    } else {
        let entry = entries.last();
        let prefix = if entry.path.len() == 0 {
            Seq::empty()
        } else {
            path_text(entry.path) + seq![':', ' ']
        };
        report_text(entries.drop_last()) + prefix + entry.message + seq!['\n']
    }
}

/// What the range rule says of a value.
pub open spec fn range_error(value: u64, min: u64, max: u64) -> Option<Seq<char>> {
    if value < min {
        Some("lower than "@ + text::decimal(min as nat))
    } else if value > max {
        Some("greater than "@ + text::decimal(max as nat))
    } else {
        None
    }
}

/// What the address rule says of a value.
pub open spec fn ip_error(value: Seq<char>) -> Option<Seq<char>> {
    if is_ip_address(value) {
        None
    } else {
        Some("not a valid IP address"@)
    }
}

/// Whether a result carries this error, or none.
pub open spec fn says(result: Result<(), String>, error: Option<Seq<char>>) -> bool {
    match result {
        Ok(()) => error is None,
        Err(message) => error == Some(message@),
    }
}

/// The entry for an error at a path, if there is one.
pub open spec fn entry(path: Seq<Component>, error: Option<Seq<char>>) -> Seq<Entry> {
    match error {
        Some(message) => seq![Entry { path, message }],
        None => Seq::empty(),
    }
}

/// `garde::Path::empty` has no components.
#[verifier::external_body]
pub(crate) fn empty_path() -> (path: garde::Path)
    ensures
        path_components(path) == Seq::<Component>::empty(),
{
    garde::Path::empty()
}

/// `garde::Path::join` with a text leads to the field of that name.
#[verifier::external_body]
pub(crate) fn join_key(path: &garde::Path, key: &str) -> (longer: garde::Path)
    ensures
        path_components(longer) == path_components(*path).push(Component::Key(key@)),
{
    path.join(key)
}

/// `garde::Path::join` with a number leads to the item of that number.
#[verifier::external_body]
pub(crate) fn join_index(path: &garde::Path, index: usize) -> (longer: garde::Path)
    ensures
        path_components(longer) == path_components(*path).push(Component::Index(index as nat)),
{
    path.join(index)
}

/// `garde::Path::join` with `NoKey` leads into an option.
#[verifier::external_body]
pub(crate) fn join_inner(path: &garde::Path) -> (longer: garde::Path)
    ensures
        path_components(longer) == path_components(*path).push(Component::Inner),
{
    path.join(garde::error::NoKey::default())
}

/// `garde::Report::new` makes a report without errors.
#[verifier::external_body]
pub(crate) fn new_report() -> (report: garde::Report)
    ensures
        report_entries(report) == Seq::<Entry>::empty(),
{
    garde::Report::new()
}

/// `garde::Report::append` puts an error behind the others.
#[verifier::external_body]
pub(crate) fn append(report: &mut garde::Report, path: &garde::Path, message: &str)
    ensures
        report_entries(*final(report)) == report_entries(*old(report)).push(
            Entry { path: path_components(*path), message: message@ },
        ),
{
    report.append(path.clone(), garde::Error::new(message))
}

/// `garde::Report::is_empty` tells whether there is no error.
#[verifier::external_body]
pub(crate) fn is_empty(report: &garde::Report) -> (result: bool)
    ensures
        result == (report_entries(*report).len() == 0),
{
    report.is_empty()
}

/// `garde::Report` is displayed as a line for each error.
#[verifier::external_body]
pub(crate) fn display(report: &garde::Report) -> (text: String)
    ensures
        text@ == report_text(report_entries(*report)),
{
    report.to_string()
}

/// `garde::rules::range::apply` accepts a value between the bounds.
#[verifier::external_body]
pub(crate) fn range(value: u64, min: u64, max: u64) -> (result: Result<(), String>)
    ensures
        says(result, range_error(value, min, max)),
{
    garde::rules::range::apply(&value, (Some(min), Some(max))).map_err(
        |error| error.message().to_owned(),
    )
}

/// `garde::rules::ip::apply` accepts an address of either version. Which texts are addresses
/// is left open: std's parser for `IpAddr` decides.
#[verifier::external_body]
pub(crate) fn ip(value: &str) -> (result: Result<(), String>)
    ensures
        result is Ok == is_ip_address(value@),
        says(result, ip_error(value@)),
{
    garde::rules::ip::apply(&value, (garde::rules::ip::IpKind::Any,)).map_err(
        |error| error.message().to_owned(),
    )
}

/// Appends the error that a rule found.
pub fn note(report: &mut garde::Report, path: &garde::Path, result: Result<(), String>)
    ensures
        report_entries(*final(report)) == report_entries(*old(report)) + entry(
            path_components(*path),
            match result {
                Ok(()) => None,
                Err(message) => Some(message@),
            },
        ),
{
    match result {
        Ok(()) => {
            assert(report_entries(*report) =~= report_entries(*report) + Seq::<Entry>::empty());
        },
        Err(message) => {
            let ghost before = report_entries(*report);
            append(report, path, message.as_str());
            assert(report_entries(*report) =~= before + seq![
                Entry { path: path_components(*path), message: message@ },
            ]);
        },
    }
}

/// One error makes one entry with its path, and no error makes none.
pub proof fn lemma_entry_of_error(path: Seq<Component>, message: Seq<char>)
    ensures
        entry(path, None).len() == 0,
        entry(path, Some(message)).len() == 1,
        entry(path, Some(message))[0].path == path,
        entry(path, Some(message))[0].message == message,
{
}

} // verus!
