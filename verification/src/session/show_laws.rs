//! What of the photo is shown, and beside what.

use vstd::arithmetic::power2::*;
use vstd::prelude::*;

use crate::document::inside_laws;
use crate::document::operation::{Kind, Operation};
use crate::document::project::DocumentView;
use crate::document::turn_laws;
use crate::document::values::ViewState;
use crate::number::constants;
use crate::number::laws;
use crate::number::rounding;
use crate::number::scalar::Scalar;
use crate::session::open;
use crate::session::preview;
use crate::session::state::SessionView;

verus! {

/// Picking operations keeps those that are picked, and no others.
proof fn lemma_picked(operations: Seq<Operation>, keep: spec_fn(Operation) -> bool, one: Operation)
    ensures
        operations.filter(keep).contains(one) <==> operations.contains(one) && keep(one),
    decreases operations.len(),
{
    reveal(Seq::filter);
    if operations.len() > 0 {
        let earlier = operations.drop_last();
        let last = operations.last();
        lemma_picked(earlier, keep, one);
        assert(operations =~= earlier.push(last));
        assert(operations.contains(one) <==> earlier.contains(one) || one == last) by {
            if operations.contains(one) {
                let i = choose|i: int| 0 <= i < operations.len() && operations[i] == one;
                if i < earlier.len() {
                    assert(earlier[i] == one);
                }
            }
            if earlier.contains(one) {
                let i = choose|i: int| 0 <= i < earlier.len() && earlier[i] == one;
                assert(operations[i] == one);
            }
            assert(operations[operations.len() - 1] == last);
        }
        let picked = earlier.filter(keep);
        if keep(last) {
            assert(operations.filter(keep) == picked.push(last));
            assert(picked.push(last).contains(one) <==> picked.contains(one) || one == last) by {
                if picked.contains(one) {
                    let i = choose|i: int| 0 <= i < picked.len() && picked[i] == one;
                    assert(picked.push(last)[i] == one);
                }
                assert(picked.push(last)[picked.len() as int] == last);
                if picked.push(last).contains(one) && one != last {
                    let i = choose|i: int|
                        0 <= i < picked.push(last).len() && picked.push(last)[i] == one;
                    assert(picked[i] == one);
                }
            }
        }
    }
}

/// While the crop is being changed the photo is shown without its crop, and
/// whole; otherwise as the document says.
pub proof fn the_whole_photo_is_shown_for_cropping(
    session: SessionView,
    canvas: (u32, u32),
    operation: Operation,
)
    requires
        session.document is Some,
    ensures
        ({
            let document = session.document->0;
            let viewport = session.shown_viewport(canvas);
            let shown = session.shown_operations();
            &&& session.crops() ==> {
                &&& shown.contains(operation) <==> document.operations.contains(operation)
                    && operation.kind() != Kind::Crop
                &&& laws::exact(viewport.zoom) == 0
                &&& 2 * laws::exact(viewport.center_x) == turn_laws::whole()
                &&& 2 * laws::exact(viewport.center_y) == turn_laws::whole()
            }
            &&& !session.crops() ==> {
                &&& shown == document.operations
                &&& viewport.zoom == document.view.zoom
                &&& viewport.center_x == document.view.center_x
                &&& viewport.center_y == document.view.center_y
            }
            &&& viewport.output_height == canvas.1
        }),
{
    lemma_middle();
    lemma_picked(
        session.document->0.operations,
        |operation: Operation| !(operation is Crop),
        operation,
    );
}

/// The middle of the photo, in units.
proof fn lemma_middle()
    ensures
        laws::exact(ViewState::initial().zoom) == 0,
        2 * laws::exact(ViewState::initial().center_x) == turn_laws::whole(),
        2 * laws::exact(ViewState::initial().center_y) == turn_laws::whole(),
{
    turn_laws::lemma_sizes();
    lemma2_to64();
    rounding::lemma_encode(125, 0x80_0000, 24);
    lemma_pow2_adds(125, 1);
}

/// The original beside the photo has its turns, its straightening and its
/// crop, and nothing else of what was done to it.
pub proof fn the_original_keeps_the_geometry(operations: Seq<Operation>, operation: Operation)
    ensures
        preview::geometry_only(operations).contains(operation) <==> operations.contains(operation)
            && (operation.kind() == Kind::Rotate || operation.kind() == Kind::Straighten
            || operation.kind() == Kind::Crop),
{
    lemma_picked(
        operations,
        |operation: Operation| preview::is_geometry(operation),
        operation,
    );
}

/// Two photos beside each other have half the canvas each, and 64 pixels at
/// least; one alone has all of it.
pub proof fn two_photos_share_the_canvas(session: SessionView, canvas: (u32, u32))
    ensures
        ({
            let width = session.shown_viewport(canvas).output_width as int;
            &&& !session.show_original ==> width == canvas.0
            &&& session.show_original && canvas.0 >= 128 ==> 0 <= canvas.0 - 2 * width <= 1
            &&& session.show_original && canvas.0 < 128 ==> width == 64
        }),
{
}

/// Showing the original and hiding it again leaves it hidden, with nothing
/// left to be rendered for it.
pub proof fn the_original_is_shown_and_hidden(session: SessionView)
    ensures
        session.toggled().show_original == !session.show_original,
        session.show_original ==> {
            let hidden = session.toggled();
            &&& !hidden.original_preview_pending
            &&& hidden.original_preview_key is None
            &&& hidden.original_request_key is None
        },
        !session.show_original ==> session.toggled().original_preview_pending,
        session.toggled().document == session.document,
        session.toggled().generation == session.generation,
{
}

/// The user is told that a preview is awaited once it has taken 180
/// milliseconds, and not while none is awaited.
pub proof fn a_slow_preview_is_announced(session: SessionView, started: u64, now: u64)
    ensures
        (SessionView { render_requested_at: Some(started), ..session }).is_slow(now) <==> now
            >= started + 180,
        !(SessionView { render_requested_at: None, ..session }).is_slow(now),
{
}

/// An opened document has its centre inside the photo, and is otherwise as it
/// was.
pub proof fn an_opened_document_is_centred_inside(document: DocumentView)
    requires
        document.view.center_x.finite(),
        document.view.center_y.finite(),
    ensures
        ({
            let opened = open::centred_inside(document);
            let one = turn_laws::whole();
            &&& laws::exact(opened.view.center_x) == inside_laws::held(
                laws::exact(document.view.center_x),
                0,
                one,
            )
            &&& laws::exact(opened.view.center_y) == inside_laws::held(
                laws::exact(document.view.center_y),
                0,
                one,
            )
            &&& opened == (DocumentView { view: opened.view, ..document })
            &&& opened.view.zoom == document.view.zoom
        }),
{
    let zero = Scalar { bits: constants::ZERO };
    let one = Scalar { bits: constants::ONE };
    turn_laws::lemma_sizes();
    turn_laws::lemma_clamped(document.view.center_x, zero, one);
    turn_laws::lemma_clamped(document.view.center_y, zero, one);
}

} // verus!
