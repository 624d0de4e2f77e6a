//! Escape sequence parsing, by the `vte` crate.

use vstd::prelude::*;
use vte::Perform;

use crate::bytes;

use super::model::EventView;
use super::performer;
use super::performer::Event;
use super::style;

verus! {

/// The parameter list of a control sequence in `vte`.
#[verifier::external_type_specification]
#[verifier::external_body]
pub struct ExParams(vte::Params);

/// The parser of `vte`.
#[verifier::external_type_specification]
#[verifier::external_body]
pub struct ExParser<const OSC_RAW_BUF_SIZE: usize>(vte::Parser<OSC_RAW_BUF_SIZE>);

/// The values in a parameter list: a sequence for each parameter, which holds its
/// value and its subparameters.
pub uninterp spec fn param_values(params: vte::Params) -> Seq<Seq<u16>>;

/// What a parser in a given state reports when it is fed `input`: its calls of
/// `vte::Perform`, in order, but for those about device control strings. Of a call
/// it holds what is carried out: not whether a sequence had too many parameters,
/// nor how an operating system command ended.
pub uninterp spec fn reports(parser: vte::Parser<1024>, input: Seq<u8>) -> Seq<EventView>;

/// What a new parser reports when it is fed `input`.
pub uninterp spec fn fresh_reports(input: Seq<u8>) -> Seq<EventView>;

/// The values of a parameter list, by `vte::Params::iter`: it walks the parameters
/// in order and gives each with its subparameters.
#[verifier::external_body]
fn values_of(params: &vte::Params) -> (res: Vec<Vec<u16>>)
    ensures
        style::params_view(res@) == param_values(*params),
{
    params.iter().map(|values| values.to_vec()).collect()
}

/// A new parser, by `vte::Parser::new`. Nothing was fed to it, so it has nothing
/// to report, and what it will report depends on its input alone.
#[verifier::external_body]
pub(crate) fn new_parser() -> (res: vte::Parser)
    ensures
        reports(res, Seq::empty()) == Seq::<EventView>::empty(),
        forall|input: Seq<u8>| #[trigger] reports(res, input) == fresh_reports(input),
{
    vte::Parser::new()
}

/// Feed one byte to a parser, by `vte::Parser::advance`. The sink receives what
/// the parser reports for that byte, and the parser goes on from there: what it
/// reports for a longer input is that, followed by what it reports for the rest.
#[verifier::external_body]
pub(crate) fn advance(parser: &mut vte::Parser, sink: &mut EventSink, byte: u8)
    ensures
        performer::events_view(final(sink).events@) == performer::events_view(old(sink).events@)
            + reports(*old(parser), seq![byte]),
        forall|rest: Seq<u8>|
            reports(*old(parser), seq![byte] + rest) == reports(*old(parser), seq![byte])
                + #[trigger] reports(*final(parser), rest),
{
    parser.advance(sink, byte)
}

/// Collects what the parser reports.
pub struct EventSink {
    pub events: Vec<Event>,
}

impl EventSink {
    fn record(&mut self, event: Event)
        ensures
            performer::events_view(final(self).events@) == performer::events_view(
                old(self).events@,
            ).push(event@),
    {
        self.events.push(event);
        assert(performer::events_view(self.events@) =~= performer::events_view(
            old(self).events@,
        ).push(event@));
    }
}

impl Perform for EventSink {
    fn print(&mut self, c: char)
        ensures
            performer::events_view(final(self).events@) == performer::events_view(
                old(self).events@,
            ).push(EventView::Print(c)),
    {
        self.record(Event::Print(c));
    }

    fn execute(&mut self, byte: u8)
        ensures
            performer::events_view(final(self).events@) == performer::events_view(
                old(self).events@,
            ).push(EventView::Execute(byte)),
    {
        self.record(Event::Execute(byte));
    }

    fn csi_dispatch(
        &mut self,
        params: &vte::Params,
        intermediates: &[u8],
        _ignore: bool,
        action: char,
    )
        ensures
            performer::events_view(final(self).events@) == performer::events_view(
                old(self).events@,
            ).push(
                (EventView::Csi {
                    params: param_values(*params),
                    intermediates: intermediates@,
                    action,
                }),
            ),
    {
        let params: Vec<Vec<u16>> = values_of(params);
        self.record(Event::Csi { params, intermediates: owned(intermediates), action });
    }

    fn esc_dispatch(&mut self, intermediates: &[u8], _ignore: bool, byte: u8)
        ensures
            performer::events_view(final(self).events@) == performer::events_view(
                old(self).events@,
            ).push((EventView::Esc { intermediates: intermediates@, byte })),
    {
        self.record(Event::Esc { intermediates: owned(intermediates), byte });
    }

    fn osc_dispatch(&mut self, params: &[&[u8]], _bell_terminated: bool)
        ensures
            performer::events_view(final(self).events@) == performer::events_view(
                old(self).events@,
            ).push((EventView::Osc { fields: params@.map_values(|p: &[u8]| p@) })),
    {
        let mut fields: Vec<Vec<u8>> = Vec::new();
        while fields.len() < params.len()
            invariant
                fields.len() <= params.len(),
                forall|i: int| 0 <= i < fields.len() ==> #[trigger] fields@[i]@ == params@[i]@,
            decreases params.len() - fields.len(),
        {
            fields.push(owned(params[fields.len()]));
        }
        assert(bytes::lines_view(fields@) =~= params@.map_values(|p: &[u8]| p@));
        self.record(Event::Osc { fields });
    }
}

/// Copy a byte string.
fn owned(text: &[u8]) -> (res: Vec<u8>)
    ensures
        res@ == text@,
{
    let mut res: Vec<u8> = Vec::new();
    res.extend_from_slice(text);
    assert(res@ =~= text@);
    res
}

} // verus!
