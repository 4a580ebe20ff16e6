//! From a buffer to the report of one route: decode, select, render.

use crate::codec::{decode, decode_feed};
use crate::filter::{filter_by_route, lemma_matching_none, matching, serves_route};
use crate::model::EntityView;
use crate::render::{
    outcome_view, render_entities, summary_of, RenderError, SummaryView, VehicleSummary,
};
use crate::wire::DecodeError;
use vstd::prelude::*;

verus! {

/// The report of the route suffix `suffix` from the buffer `buf`: for each
/// entity of the feed that serves the suffix, in the feed's order, its
/// display record or what it lacks; or why the buffer is no feed.
pub open spec fn report_of(buf: Seq<u8>, suffix: Seq<char>) -> Result<
    Seq<Result<SummaryView, RenderError>>,
    DecodeError,
> {
    match decode_feed(buf) {
        Ok(feed) => Ok(matching(feed.entity, suffix).map_values(|e: EntityView| summary_of(e))),
        Err(e) => Err(e),
    }
}

/// Views of the outcomes of a report, one by one.
pub open spec fn outcome_views(outcomes: Seq<Result<VehicleSummary, RenderError>>) -> Seq<
    Result<SummaryView, RenderError>,
> {
    outcomes.map_values(|o: Result<VehicleSummary, RenderError>| outcome_view(o))
}

/// A feed in which no entity serves the suffix has an empty report, which is
/// no error.
pub proof fn lemma_report_without_match(buf: Seq<u8>, suffix: Seq<char>)
    requires
        decode_feed(buf) is Ok,
        forall|i: int|
            0 <= i < decode_feed(buf).unwrap().entity.len() ==> !serves_route(
                #[trigger] decode_feed(buf).unwrap().entity[i],
                suffix,
            ),
    ensures
        report_of(buf, suffix) == Ok::<Seq<Result<SummaryView, RenderError>>, DecodeError>(
            Seq::empty(),
        ),
{
    lemma_matching_none(decode_feed(buf).unwrap().entity, suffix);
    assert(report_of(buf, suffix).unwrap() =~= Seq::empty());
}

/// Decodes `buf`, selects the entities whose route identifier ends with
/// `suffix` and renders each of them.
pub fn route_report(buf: &[u8], suffix: &str) -> (report: Result<
    Vec<Result<VehicleSummary, RenderError>>,
    DecodeError,
>)
    ensures
        match report {
            Ok(outcomes) => report_of(buf@, suffix@) == Ok::<
                Seq<Result<SummaryView, RenderError>>,
                DecodeError,
            >(outcome_views(outcomes@)),
            Err(e) => report_of(buf@, suffix@) == Err::<
                Seq<Result<SummaryView, RenderError>>,
                DecodeError,
            >(e),
        },
{
    let feed = match decode(buf) {
        Ok(feed) => feed,
        Err(e) => { return Err(e); },
    };
    let found = filter_by_route(&feed, suffix);
    let outcomes = render_entities(&found);
    proof {
        let wanted = matching(feed@.entity, suffix@).map_values(|e: EntityView| summary_of(e));
        assert(outcome_views(outcomes@).len() == wanted.len());
        assert forall|i: int| 0 <= i < wanted.len() implies outcome_views(outcomes@)[i]
            == wanted[i] by {
            assert(crate::filter::borrowed_views(found@)[i] == found@[i]@);
        }
        assert(outcome_views(outcomes@) =~= wanted);
    }
    Ok(outcomes)
}

} // verus!
