//! The contents of the two tables after a reset.
use vstd::prelude::*;

use crate::scheduler::pcb::{ProcessView, PCB};
use crate::scheduler::rcb::{ResourceView, RCB};

verus! {

/// The process table after a reset: the root process in slot 0, every other slot free.
pub open spec fn initial_pcbs() -> Seq<Option<ProcessView>> {
    Seq::new(
        16,
        |i: int|
            if i == 0 {
                Some(ProcessView::fresh(0, None))
            } else {
                None
            },
    )
}

/// The resource table after a reset: classes of 1, 1, 2 and 3 units, all available.
pub open spec fn initial_rcbs() -> Seq<ResourceView> {
    seq![
        ResourceView::full(1),
        ResourceView::full(1),
        ResourceView::full(2),
        ResourceView::full(3),
    ]
}

/// What the process table holds, slot by slot.
pub open spec fn pcbs_view(pcb_list: [Option<PCB>; 16]) -> Seq<Option<ProcessView>> {
    Seq::new(
        16,
        |i: int|
            match pcb_list@[i] {
                Some(pcb) => Some(pcb@),
                None => None,
            },
    )
}

/// What the resource table holds, class by class.
pub open spec fn rcbs_view(rcb_list: [RCB; 4]) -> Seq<ResourceView> {
    Seq::new(4, |i: int| rcb_list@[i]@)
}

#[must_use]
pub fn pcb_list_default() -> (pcb_list: [Option<PCB>; 16])
    ensures
        pcbs_view(pcb_list) == initial_pcbs(),
{
    let pcb_list = [
        Some(PCB::new(0, None)),
        None,
        None,
        None,
        None,
        None,
        None,
        None,
        None,
        None,
        None,
        None,
        None,
        None,
        None,
        None,
    ];
    pcb_list
}

#[must_use]
pub fn rcb_list_default() -> (rcb_list: [RCB; 4])
    ensures
        rcbs_view(rcb_list) == initial_rcbs(),
{
    let rcb_list = [RCB::new(1), RCB::new(1), RCB::new(2), RCB::new(3)];
    rcb_list
}

} // verus!
