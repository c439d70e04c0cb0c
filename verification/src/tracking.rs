//! A buffer knows which of its results are out of date.

use vstd::prelude::*;

use crate::breaks::line_total;
use crate::buffer::{Buffer, LineStore};
use crate::dirty::DirtyFlags;
use crate::layout::{Direction, Ellipsize, FontSystem, Hinting, Wrap};
use crate::line::{LineView, Settings};
use crate::pixel::{Metrics, Px};
use crate::resolve::resolved;
use crate::rope_store::RopeStore;
use crate::shape_cap::{lemma_shaped_part, shaped_part};
use crate::text::has_tab;

verus! {

/// Whether a change of settings is remembered in the flags.
pub open spec fn remembered(
    before: Settings,
    old_flags: DirtyFlags,
    after: Settings,
    flags: DirtyFlags,
) -> bool {
    &&& old_flags.relayout ==> flags.relayout
    &&& old_flags.tab_shape ==> flags.tab_shape
    &&& old_flags.direction ==> flags.direction
    &&& after.direction != before.direction ==> flags.direction
    &&& after.tab_width != before.tab_width ==> flags.tab_shape && flags.relayout
    &&& after != (Settings {
        direction: after.direction,
        tab_width: after.tab_width,
        ..before
    }) ==> flags.relayout
}

proof fn lemma_line_tracked<F: FontSystem>(
    line: LineView,
    fonts: int,
    before: Settings,
    old_flags: DirtyFlags,
    after: Settings,
    flags: DirtyFlags,
)
    requires
        line.fits(),
        resolved(line, old_flags).current::<F>(fonts, before),
        remembered(before, old_flags, after, flags),
    ensures
        resolved(line, flags).current::<F>(fonts, after),
{
    if !has_tab(line.text) {
        lemma_shaped_part(line.text);
        F::law_tab_width(
            fonts,
            shaped_part(line.text),
            line.attrs,
            line.shaping,
            before.tab_width,
            after.tab_width,
            before.direction,
        );
    }
}

proof fn lemma_rope_tracked<F: FontSystem>(
    store: RopeStore,
    fonts: int,
    before: Settings,
    old_flags: DirtyFlags,
    after: Settings,
    flags: DirtyFlags,
)
    requires
        LineStore::Rope(store).tracks::<F>(fonts, before, old_flags),
        remembered(before, old_flags, after, flags),
    ensures
        LineStore::Rope(store).tracks::<F>(fonts, after, flags),
{
    if !flags.drops_all() {
        assert forall|i: int| (#[trigger] store.cache.shape_at(i)) is Some implies 0 <= i
            < line_total(store.bytes()) && store.cache.shape_at(i).unwrap() == store.line_view(
            i,
        ).fresh_shape::<F>(fonts, after) by {}
        if !flags.drops_layouts() {
            assert(after == before);
        }
    }
}

/// A change of settings that is remembered in the flags leaves no result that
/// is out of date without being known to be.
pub proof fn law_remembered_changes_are_tracked<F: FontSystem>(
    before: &Buffer,
    after: &Buffer,
    fonts: int,
)
    requires
        before.wf(),
        before.tracks::<F>(fonts),
        after.store == before.store,
        remembered(before.settings(), before.dirty, after.settings(), after.dirty),
    ensures
        after.tracks::<F>(fonts),
{
    match before.store {
        LineStore::Full(lines) => {
            assert(before.store == LineStore::Full(lines));
            assert forall|i: int| 0 <= i < lines@.len() implies resolved(
                (#[trigger] lines@[i])@,
                after.dirty,
            ).current::<F>(fonts, after.settings()) by {
                lemma_line_tracked::<F>(
                    lines@[i]@,
                    fonts,
                    before.settings(),
                    before.dirty,
                    after.settings(),
                    after.dirty,
                );
            }
        },
        LineStore::Rope(store) => {
            assert(before.store == LineStore::Rope(store));
            lemma_rope_tracked::<F>(
                store,
                fonts,
                before.settings(),
                before.dirty,
                after.settings(),
                after.dirty,
            );
        },
    }
}

/// No setter leaves a result that is out of date without being known to be.
/// Each conclusion is about the buffer that the setter of that name makes.
pub proof fn law_setters_are_tracked<F: FontSystem>(
    buffer: &Buffer,
    fonts: int,
    metrics: Metrics,
    width_opt: Option<Px>,
    height_opt: Option<Px>,
    monospace_width: Option<Px>,
    wrap: Wrap,
    hinting: Hinting,
    ellipsize: Ellipsize,
    tab_width: u16,
    direction: Direction,
)
    requires
        buffer.wf(),
        buffer.tracks::<F>(fonts),
    ensures
        buffer.with_metrics(metrics).tracks::<F>(fonts),
        buffer.with_size(width_opt, height_opt).tracks::<F>(fonts),
        buffer.with_metrics(metrics).with_size(width_opt, height_opt).tracks::<F>(fonts),
        (Buffer { monospace_width, ..buffer.with_relayout() }).tracks::<F>(fonts),
        (Buffer { wrap, ..buffer.with_relayout() }).tracks::<F>(fonts),
        (Buffer { hinting, ..buffer.with_relayout() }).tracks::<F>(fonts),
        (Buffer { ellipsize, ..buffer.with_relayout() }).tracks::<F>(fonts),
        (Buffer {
            tab_width,
            dirty: DirtyFlags { tab_shape: true, relayout: true, ..buffer.dirty },
            redraw: true,
            ..*buffer
        }).tracks::<F>(fonts),
        (Buffer {
            direction,
            dirty: DirtyFlags { direction: true, ..buffer.dirty },
            redraw: true,
            ..*buffer
        }).tracks::<F>(fonts),
{
    let scaled = buffer.with_metrics(metrics);
    law_remembered_changes_are_tracked::<F>(buffer, &scaled, fonts);
    law_remembered_changes_are_tracked::<F>(buffer, &buffer.with_size(width_opt, height_opt), fonts);
    law_remembered_changes_are_tracked::<F>(buffer, &scaled.with_size(width_opt, height_opt), fonts);
    law_remembered_changes_are_tracked::<F>(
        buffer,
        &(Buffer { monospace_width, ..buffer.with_relayout() }),
        fonts,
    );
    law_remembered_changes_are_tracked::<F>(
        buffer,
        &(Buffer { wrap, ..buffer.with_relayout() }),
        fonts,
    );
    law_remembered_changes_are_tracked::<F>(
        buffer,
        &(Buffer { hinting, ..buffer.with_relayout() }),
        fonts,
    );
    law_remembered_changes_are_tracked::<F>(
        buffer,
        &(Buffer { ellipsize, ..buffer.with_relayout() }),
        fonts,
    );
    law_remembered_changes_are_tracked::<F>(
        buffer,
        &(Buffer {
            tab_width,
            dirty: DirtyFlags { tab_shape: true, relayout: true, ..buffer.dirty },
            redraw: true,
            ..*buffer
        }),
        fonts,
    );
    law_remembered_changes_are_tracked::<F>(
        buffer,
        &(Buffer {
            direction,
            dirty: DirtyFlags { direction: true, ..buffer.dirty },
            redraw: true,
            ..*buffer
        }),
        fonts,
    );
}

} // verus!
