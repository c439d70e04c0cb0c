//! What holds of settings, and of what has to be done when they change.

use vstd::prelude::*;

use crate::buffer::Buffer;
use crate::dirty::DirtyFlags;
use crate::line::LineView;
use crate::pixel::{Metrics, Px};
use crate::resolve::resolved;
use crate::settings::shown_count;

verus! {

/// New metrics are kept, and the buffer has to be laid out and drawn again;
/// metrics that are equal to those that are set change nothing.
pub proof fn law_metrics_are_set(buffer: Buffer, metrics: Metrics)
    ensures
        ({
            let after = buffer.with_metrics(metrics);
            let equal = metrics.font_size.same(buffer.metrics.font_size) && metrics.line_height.same(
                buffer.metrics.line_height,
            );
            &&& equal ==> after == buffer
            &&& !equal ==> {
                &&& after.metrics.font_size == metrics.font_size
                &&& after.metrics.line_height == metrics.line_height
                &&& after.dirty.relayout
                &&& after.redraw
                &&& after.stale()
            }
            &&& after.store == buffer.store
            &&& after.scroll == buffer.scroll
            &&& after.width_opt == buffer.width_opt
            &&& after.height_opt == buffer.height_opt
        }),
{
}

/// Whether a length that is asked for is set: as it is if it is above zero, and
/// as zero if it is not.
pub open spec fn is_length(set: Option<Px>, asked: Option<Px>) -> bool {
    match (set, asked) {
        (Some(s), Some(a)) => if (Px { bits: 0 }).lt(a) {
            s.same(a)
        } else {
            s.same(Px { bits: 0 })
        },
        (None, None) => true,
        _ => false,
    }
}

/// A new size is kept, no length below zero, and the buffer has to be laid out
/// and drawn again; a size that is equal to the one that is set changes nothing.
pub proof fn law_the_size_is_set(buffer: Buffer, width_opt: Option<Px>, height_opt: Option<Px>)
    ensures
        ({
            let after = buffer.with_size(width_opt, height_opt);
            &&& is_length(after.width_opt, width_opt)
            &&& is_length(after.height_opt, height_opt)
            &&& is_length(buffer.width_opt, width_opt) && is_length(buffer.height_opt, height_opt)
                ==> after == buffer
            &&& !(is_length(buffer.width_opt, width_opt) && is_length(
                buffer.height_opt,
                height_opt,
            )) ==> after.dirty.relayout && after.redraw && after.stale()
            &&& after.store == buffer.store
            &&& after.scroll == buffer.scroll
            &&& after.metrics == buffer.metrics
        }),
{
}

/// Whatever has changed, the view has to be brought up to date.
pub proof fn law_changes_are_not_forgotten(buffer: &Buffer)
    ensures
        buffer.dirty.relayout ==> buffer.stale(),
        buffer.dirty.tab_shape ==> buffer.stale(),
        buffer.dirty.text_set ==> buffer.stale(),
        buffer.dirty.scroll ==> buffer.stale(),
        buffer.dirty.direction ==> buffer.stale(),
{
}

/// Results that no change makes out of date are kept: with no change of the
/// direction, and none of the tab width if there is a tab, the shape is, and if
/// the layout depends on none of what has changed either, the layout is too.
/// What is dropped is remembered, and nothing else of the line changes.
pub proof fn law_results_are_not_dropped_in_vain(line: LineView, dirty: DirtyFlags)
    ensures
        ({
            let after = resolved(line, dirty);
            let tabs = exists|i: int| 0 <= i < line.text.len() && #[trigger] line.text[i] == 0x09;
            let reshapes = dirty.direction || (dirty.tab_shape && tabs);
            &&& !reshapes ==> after.shape == line.shape
            &&& !reshapes && !dirty.relayout ==> after == line
            &&& reshapes ==> after.shape is None
            &&& line.shape is Some && (reshapes || dirty.relayout) ==> after.layout is None
            &&& line.shape is Some && after.shape is None ==> after.shape_dropped
            &&& line.layout is Some && after.layout is None ==> after.layout_dropped
            &&& after.text == line.text
            &&& after.ending == line.ending
            &&& after.attrs == line.attrs
            &&& after.align == line.align
            &&& after.shaping == line.shaping
            &&& after.hidden == line.hidden
            &&& after.metadata == line.metadata
        }),
{
}

/// Each line that is not hidden counts once.
pub proof fn law_shown_lines_are_counted(buffer: &Buffer, n: int)
    requires
        0 <= n,
    ensures
        shown_count(buffer, 0) == 0,
        buffer.store.line_at(n).hidden ==> shown_count(buffer, n + 1) == shown_count(buffer, n),
        !buffer.store.line_at(n).hidden ==> shown_count(buffer, n + 1) == shown_count(buffer, n) + 1,
{
}

} // verus!
