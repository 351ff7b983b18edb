use scheduler::scheduler::{
    defaults::{pcb_list_default, rcb_list_default},
    pcb::{PCBResource, PCBState, PCB},
    rcb::{RCBResource, RCB},
    Scheduler,
};

/// Units of class `rid` that all processes hold together.
fn units_held(scheduler: &Scheduler, rid: usize) -> usize {
    let mut total = 0;
    for slot in scheduler.pcb_list.iter() {
        if let Some(pcb) = slot {
            for grant in pcb.resources.iter() {
                if grant.rid == rid {
                    total += grant.units;
                }
            }
        }
    }
    total
}

/// Checks on a concrete state what holds of every reachable state.
fn assert_in_order(scheduler: &Scheduler) {
    let inventories = [1, 1, 2, 3];
    // the root
    let root = scheduler.pcb_list[0].as_ref().unwrap();
    assert_eq!(root.state, PCBState::READY);
    assert_eq!(root.parent, None);
    assert!(root.resources.is_empty());
    for (pid, slot) in scheduler.pcb_list.iter().enumerate() {
        let Some(pcb) = slot else { continue };
        // the chain of parents ends at the root
        let mut cur = pid;
        let mut steps = 0;
        while cur != 0 {
            cur = scheduler.pcb_list[cur].as_ref().unwrap().parent.unwrap();
            steps += 1;
            assert!(steps < 16);
        }
        // parent and children agree
        if pid != 0 {
            let parent = scheduler.pcb_list[pcb.parent.unwrap()].as_ref().unwrap();
            assert_eq!(parent.children.iter().filter(|&&c| c == pid).count(), 1);
        }
        for &child in pcb.children.iter() {
            assert_eq!(scheduler.pcb_list[child].as_ref().unwrap().parent, Some(pid));
        }
        // in the ready queue of its priority exactly if ready, once, and in no other
        for (priority, queue) in scheduler.ready_list.iter().enumerate() {
            let times = queue.iter().filter(|&&p| p == pid).count();
            if pcb.state == PCBState::READY && pcb.priority == priority {
                assert_eq!(times, 1);
            } else {
                assert_eq!(times, 0);
            }
        }
        // on one waitlist exactly if blocked
        let mut requests = 0;
        for rcb in scheduler.rcb_list.iter() {
            requests += rcb.waitlist.iter().filter(|r| r.pid == pid).count();
        }
        if pcb.state == PCBState::BLOCKED {
            assert_eq!(requests, 1);
        } else {
            assert_eq!(requests, 0);
        }
    }
    for (rid, rcb) in scheduler.rcb_list.iter().enumerate() {
        assert_eq!(rcb.inventory, inventories[rid]);
        assert_eq!(rcb.units_available + units_held(scheduler, rid), rcb.inventory);
        for request in rcb.waitlist.iter() {
            assert!(scheduler.pcb_list[request.pid].is_some());
            assert!(request.units >= 1 && request.units <= rcb.inventory);
            assert!(request.units > rcb.units_available);
        }
    }
    // the running process heads the non-empty queue of highest priority
    let head = scheduler
        .ready_list
        .iter()
        .rev()
        .find(|queue| !queue.is_empty())
        .unwrap()[0];
    assert_eq!(scheduler.running_pid, head);
}

#[test]
fn first_create_runs_the_new_process() {
    let mut scheduler = Scheduler::new();
    assert_eq!(scheduler.create(1), Some(1));
    assert_eq!(scheduler.running_pid, 1);
    assert_eq!(scheduler.ready_list, [vec![0], vec![1], Vec::new()]);
    assert_eq!(scheduler.pcb_list[0].as_ref().unwrap().children, vec![1]);
    assert_in_order(&scheduler);
}

#[test]
fn request_beyond_available_blocks() {
    let mut scheduler = Scheduler::new();

    scheduler.create(2);

    assert_eq!(scheduler.request(3, 3), Some(1));
    assert_eq!(
        scheduler.pcb_list[1].as_ref().unwrap().resources,
        vec![PCBResource { rid: 3, units: 3 }]
    );
    assert_eq!(scheduler.rcb_list[3].units_available, 0);

    assert_eq!(scheduler.request(3, 3), Some(0));
    assert_eq!(scheduler.running_pid, 0);
    assert_eq!(
        scheduler.pcb_list[1].as_ref().unwrap().state,
        PCBState::BLOCKED
    );
    assert_eq!(scheduler.ready_list, [vec![0], Vec::new(), Vec::new()]);
    assert_eq!(
        scheduler.rcb_list[3],
        RCB {
            inventory: 3,
            units_available: 0,
            waitlist: vec![RCBResource { pid: 1, units: 3 }]
        }
    );
    assert_in_order(&scheduler);
}

#[test]
fn second_request_of_taken_class_blocks() {
    let mut scheduler = Scheduler::new();

    scheduler.create(1);

    assert_eq!(
        scheduler.rcb_list[1],
        RCB {
            inventory: 1,
            units_available: 1,
            waitlist: Vec::new()
        }
    );
    assert_eq!(scheduler.request(1, 1), Some(1));
    assert_eq!(
        scheduler.rcb_list[1],
        RCB {
            inventory: 1,
            units_available: 0,
            waitlist: Vec::new()
        }
    );
    assert_eq!(
        scheduler.pcb_list[1].as_ref().unwrap(),
        &PCB {
            children: Vec::new(),
            parent: Some(0),
            priority: 1,
            state: PCBState::READY,
            resources: vec![PCBResource { rid: 1, units: 1 }]
        }
    );

    assert_eq!(scheduler.request(3, 2), Some(1));
    assert_eq!(scheduler.request(1, 1), Some(0));

    assert_eq!(
        scheduler.rcb_list[1],
        RCB {
            inventory: 1,
            units_available: 0,
            waitlist: vec![RCBResource { pid: 1, units: 1 }]
        }
    );
    assert_eq!(
        scheduler.pcb_list[1].as_ref().unwrap(),
        &PCB {
            children: Vec::new(),
            parent: Some(0),
            priority: 1,
            state: PCBState::BLOCKED,
            resources: vec![
                PCBResource { rid: 1, units: 1 },
                PCBResource { rid: 3, units: 2 }
            ]
        }
    );
    assert_in_order(&scheduler);
}

#[test]
fn repeated_requests_are_kept_apart() {
    let mut scheduler = Scheduler::new();

    scheduler.create(2);
    scheduler.request(3, 1);
    scheduler.request(3, 1);
    scheduler.request(3, 1);

    assert_eq!(
        scheduler.pcb_list[1].as_ref().unwrap().resources,
        vec![
            PCBResource { rid: 3, units: 1 },
            PCBResource { rid: 3, units: 1 },
            PCBResource { rid: 3, units: 1 }
        ]
    );
    assert_eq!(scheduler.rcb_list[3].units_available, 0);

    // the sum of the grants is no grant
    assert_eq!(scheduler.release(3, 3), None);
    assert_eq!(scheduler.release(3, 2), None);

    assert_eq!(scheduler.release(3, 1), Some(1));
    assert_eq!(
        scheduler.pcb_list[1].as_ref().unwrap().resources,
        vec![
            PCBResource { rid: 3, units: 1 },
            PCBResource { rid: 3, units: 1 }
        ]
    );
    assert_eq!(scheduler.rcb_list[3].units_available, 1);

    assert_eq!(scheduler.release(3, 1), Some(1));
    assert_eq!(scheduler.release(3, 1), Some(1));
    assert_eq!(
        scheduler.pcb_list[1].as_ref().unwrap().resources,
        Vec::new()
    );
    assert_eq!(scheduler.rcb_list[3].units_available, 3);
    assert_eq!(scheduler.release(3, 1), None);
    assert_in_order(&scheduler);
}

#[test]
fn fourth_unit_of_three_blocks() {
    let mut scheduler = Scheduler::new();

    scheduler.create(2);
    scheduler.request(3, 1);
    scheduler.request(3, 1);
    scheduler.request(3, 1);

    assert_eq!(scheduler.request(3, 1), Some(0));
    assert_eq!(
        scheduler.pcb_list[1].as_ref().unwrap().resources,
        vec![
            PCBResource { rid: 3, units: 1 },
            PCBResource { rid: 3, units: 1 },
            PCBResource { rid: 3, units: 1 }
        ]
    );
    assert_eq!(
        scheduler.rcb_list[3].waitlist,
        vec![RCBResource { pid: 1, units: 1 }]
    );
    // the root holds nothing to release
    assert_eq!(scheduler.release(3, 3), None);
    assert_eq!(scheduler.rcb_list[3].units_available, 0);
    assert_in_order(&scheduler);
}

#[test]
fn blocked_request_is_granted_on_release() {
    let mut scheduler = Scheduler::new();

    scheduler.create(1);
    scheduler.request(3, 1);
    scheduler.create(2);
    assert_eq!(scheduler.request(3, 2), Some(2));

    assert_eq!(scheduler.request(3, 1), Some(1));
    assert_eq!(
        scheduler.pcb_list[2].as_ref().unwrap(),
        &PCB {
            children: Vec::new(),
            parent: Some(1),
            priority: 2,
            state: PCBState::BLOCKED,
            resources: vec![PCBResource { rid: 3, units: 2 }]
        }
    );
    assert_eq!(
        scheduler.rcb_list[3],
        RCB {
            inventory: 3,
            units_available: 0,
            waitlist: vec![RCBResource { pid: 2, units: 1 }]
        }
    );

    assert_eq!(scheduler.release(3, 1), Some(2));
    assert_eq!(
        scheduler.pcb_list[2].as_ref().unwrap(),
        &PCB {
            children: Vec::new(),
            parent: Some(1),
            priority: 2,
            state: PCBState::READY,
            resources: vec![
                PCBResource { rid: 3, units: 2 },
                PCBResource { rid: 3, units: 1 }
            ]
        }
    );
    assert_eq!(
        scheduler.rcb_list[3],
        RCB {
            inventory: 3,
            units_available: 0,
            waitlist: Vec::new()
        }
    );
    assert_eq!(scheduler.ready_list, [vec![0], vec![1], vec![2]]);
    assert_in_order(&scheduler);
}

#[test]
fn release_that_fits_nobody_leaves_the_waitlist() {
    let mut scheduler = Scheduler::new();

    scheduler.create(2); // Process 1
    scheduler.create(2); // Process 2
    scheduler.create(2); // Process 3

    assert_eq!(scheduler.request(3, 2), Some(1));
    assert_eq!(scheduler.request(3, 1), Some(1));
    assert_eq!(scheduler.timeout(), Some(2));
    assert_eq!(scheduler.request(3, 3), Some(3));
    assert_eq!(scheduler.request(3, 3), Some(1));

    assert_eq!(scheduler.release(3, 2), Some(1));

    assert_eq!(
        scheduler.rcb_list[3],
        RCB {
            inventory: 3,
            units_available: 2,
            waitlist: vec![
                RCBResource { pid: 2, units: 3 },
                RCBResource { pid: 3, units: 3 }
            ]
        }
    );
    assert_eq!(scheduler.ready_list, [vec![0], Vec::new(), vec![1]]);
    assert_eq!(
        scheduler.pcb_list[1].as_ref().unwrap().resources,
        vec![PCBResource { rid: 3, units: 1 }]
    );
    assert_in_order(&scheduler);

    // the last unit lets the first of them in, and only it
    assert_eq!(scheduler.release(3, 1), Some(1));
    assert_eq!(
        scheduler.rcb_list[3],
        RCB {
            inventory: 3,
            units_available: 0,
            waitlist: vec![RCBResource { pid: 3, units: 3 }]
        }
    );
    assert_eq!(scheduler.ready_list, [vec![0], Vec::new(), vec![1, 2]]);
    assert_in_order(&scheduler);
}

#[test]
fn destroy_returns_the_units_of_the_whole_subtree() {
    let mut scheduler = Scheduler::new();

    // Process 1 is parent of 2 and 3; 4 is a child of the root
    scheduler.create(1); // Process 1
    scheduler.create(1); // Process 2
    scheduler.create(1); // Process 3
    assert_eq!(scheduler.request(0, 1), Some(1));
    assert_eq!(scheduler.timeout(), Some(2));
    assert_eq!(scheduler.request(2, 2), Some(2));
    assert_eq!(scheduler.request(3, 1), Some(2));
    assert_eq!(scheduler.timeout(), Some(3));
    assert_eq!(scheduler.request(3, 2), Some(3));
    assert_eq!(scheduler.timeout(), Some(1));

    assert_eq!(scheduler.ready_list, [vec![0], vec![1, 2, 3], Vec::new()]);
    assert_eq!(scheduler.rcb_list[0].units_available, 0);
    assert_eq!(scheduler.rcb_list[2].units_available, 0);
    assert_eq!(scheduler.rcb_list[3].units_available, 0);
    assert_in_order(&scheduler);

    assert_eq!(scheduler.destroy(1), Some(0));

    assert_eq!(scheduler.pcb_list, pcb_list_default());
    assert_eq!(scheduler.rcb_list, rcb_list_default());
    assert_eq!(scheduler.ready_list, [vec![0], Vec::new(), Vec::new()]);
    assert_in_order(&scheduler);
}

#[test]
fn destroy_unblocks_in_the_order_of_removal() {
    let mut scheduler = Scheduler::new();

    assert_eq!(scheduler.create(0), Some(0)); // Process 1, child of the root
    assert_eq!(scheduler.create(0), Some(0)); // Process 2, child of the root
    assert_eq!(scheduler.create(1), Some(3)); // Process 3, child of the root
    assert_eq!(scheduler.create(1), Some(3)); // Process 4, child of 3
    assert_eq!(scheduler.create(1), Some(3)); // Process 5, child of 3
    assert_eq!(scheduler.timeout(), Some(4));
    assert_eq!(scheduler.request(0, 1), Some(4));
    assert_eq!(scheduler.timeout(), Some(5));
    assert_eq!(scheduler.request(1, 1), Some(5));
    assert_eq!(scheduler.timeout(), Some(3));
    // 3 waits for what 5 holds, then 4 for what it holds itself, then 5 likewise
    assert_eq!(scheduler.request(1, 1), Some(4));
    assert_eq!(scheduler.request(0, 1), Some(5));
    assert_eq!(scheduler.request(1, 1), Some(0));
    assert_eq!(scheduler.ready_list, [vec![0, 1, 2], Vec::new(), Vec::new()]);
    assert_eq!(
        scheduler.rcb_list[1].waitlist,
        vec![
            RCBResource { pid: 3, units: 1 },
            RCBResource { pid: 5, units: 1 }
        ]
    );
    assert_in_order(&scheduler);

    // 1 and 2 wait for the classes that 4 and 5 hold
    assert_eq!(scheduler.timeout(), Some(1));
    assert_eq!(scheduler.request(1, 1), Some(2));
    assert_eq!(scheduler.request(0, 1), Some(0));
    assert_eq!(
        scheduler.rcb_list[0].waitlist,
        vec![
            RCBResource { pid: 4, units: 1 },
            RCBResource { pid: 2, units: 1 }
        ]
    );
    assert_eq!(
        scheduler.rcb_list[1].waitlist,
        vec![
            RCBResource { pid: 3, units: 1 },
            RCBResource { pid: 5, units: 1 },
            RCBResource { pid: 1, units: 1 }
        ]
    );
    assert_in_order(&scheduler);

    // 4 goes first and hands class 0 to 2; then 5, whose unit of class 1
    // goes to 3; then 3, and the unit goes on to 1
    assert_eq!(scheduler.destroy(3), Some(0));
    assert_eq!(scheduler.ready_list, [vec![0, 2, 1], Vec::new(), Vec::new()]);
    assert_eq!(scheduler.pcb_list[3], None);
    assert_eq!(scheduler.pcb_list[4], None);
    assert_eq!(scheduler.pcb_list[5], None);
    assert_eq!(
        scheduler.pcb_list[1].as_ref().unwrap().resources,
        vec![PCBResource { rid: 1, units: 1 }]
    );
    assert_eq!(
        scheduler.pcb_list[2].as_ref().unwrap().resources,
        vec![PCBResource { rid: 0, units: 1 }]
    );
    assert_eq!(scheduler.pcb_list[0].as_ref().unwrap().children, vec![1, 2]);
    assert!(scheduler.rcb_list[0].waitlist.is_empty());
    assert!(scheduler.rcb_list[1].waitlist.is_empty());
    assert_in_order(&scheduler);
}

#[test]
fn destroyed_waiter_is_not_served_by_its_own_units() {
    let mut scheduler = Scheduler::new();

    scheduler.create(1); // Process 1
    scheduler.request(3, 1);
    scheduler.create(2); // Process 2, child of 1
    assert_eq!(scheduler.request(3, 2), Some(2));
    assert_eq!(scheduler.request(3, 1), Some(1));

    // 2 holds two units and waits for one more; its parent destroys it
    assert_eq!(scheduler.destroy(2), Some(1));
    assert_eq!(scheduler.pcb_list[2], None);
    assert_eq!(scheduler.ready_list, [vec![0], vec![1], Vec::new()]);
    assert_eq!(
        scheduler.rcb_list[3],
        RCB {
            inventory: 3,
            units_available: 2,
            waitlist: Vec::new()
        }
    );
    assert_in_order(&scheduler);
}

#[test]
fn table_full_after_fifteen_creates() {
    let mut scheduler = Scheduler::new();
    for pid in 1..16 {
        assert_eq!(scheduler.create(0), Some(0));
        assert!(scheduler.pcb_list[pid].is_some());
    }
    assert_eq!(scheduler.create(0), None);
    assert_eq!(scheduler.create(1), None);
    assert_eq!(scheduler.create(2), None);
    assert_eq!(scheduler.ready_list[0].len(), 16);
    assert_in_order(&scheduler);
}

#[test]
fn chain_as_long_as_the_table() {
    let mut scheduler = Scheduler::new();
    // every process is a child of the one before
    for pid in 1..16 {
        assert!(scheduler.create(2).is_some());
        while scheduler.running_pid != pid {
            scheduler.timeout();
        }
        assert_eq!(
            scheduler.pcb_list[pid].as_ref().unwrap().parent,
            Some(pid - 1)
        );
    }
    assert_in_order(&scheduler);
    assert_eq!(scheduler.create(2), None);

    // 15 runs: everything above it is out of its reach
    assert!(scheduler.is_child_of_current_process(15));
    assert!(!scheduler.is_child_of_current_process(14));
    assert!(!scheduler.is_child_of_current_process(0));
    assert!(!scheduler.is_child_of_current_process(16));
    assert_eq!(scheduler.destroy(14), None);
    assert_eq!(scheduler.destroy(1), None);

    while scheduler.running_pid != 1 {
        scheduler.timeout();
    }
    assert!(scheduler.is_child_of_current_process(15));
    assert!(scheduler.is_child_of_current_process(1));
    assert!(!scheduler.is_child_of_current_process(0));
    assert_eq!(scheduler.destroy(2), Some(1));
    assert_eq!(scheduler.ready_list, [vec![0], Vec::new(), vec![1]]);
    for pid in 2..16 {
        assert_eq!(scheduler.pcb_list[pid], None);
    }
    assert_eq!(
        scheduler.pcb_list[1].as_ref().unwrap().children,
        Vec::<usize>::new()
    );
    assert_in_order(&scheduler);
}

#[test]
fn init_twice_is_init_once() {
    let mut once = Scheduler::new();
    once.create(2);
    once.request(3, 2);
    assert_eq!(once.init(), Some(0));

    let mut twice = Scheduler::new();
    twice.create(2);
    twice.request(3, 2);
    assert_eq!(twice.init(), Some(0));
    assert_eq!(twice.init(), Some(0));

    assert_eq!(once.running_pid, twice.running_pid);
    assert_eq!(once.pcb_list, twice.pcb_list);
    assert_eq!(once.rcb_list, twice.rcb_list);
    assert_eq!(once.ready_list, twice.ready_list);

    assert_eq!(twice.running_pid, 0);
    assert_eq!(twice.pcb_list, pcb_list_default());
    assert_eq!(twice.rcb_list, rcb_list_default());
    assert_eq!(twice.ready_list, [vec![0], Vec::new(), Vec::new()]);
    assert_in_order(&twice);
}

#[test]
fn defaults_hold_the_root_and_full_classes() {
    let pcb_list = pcb_list_default();
    assert_eq!(pcb_list[0], Some(PCB::new(0, None)));
    for pid in 1..16 {
        assert_eq!(pcb_list[pid], None);
    }
    let rcb_list = rcb_list_default();
    assert_eq!(rcb_list[0], RCB::new(1));
    assert_eq!(rcb_list[1], RCB::new(1));
    assert_eq!(rcb_list[2], RCB::new(2));
    assert_eq!(rcb_list[3], RCB::new(3));
    assert_eq!(
        RCB::new(3),
        RCB {
            inventory: 3,
            units_available: 3,
            waitlist: Vec::new()
        }
    );
    assert_eq!(
        PCB::new(2, Some(7)),
        PCB {
            state: PCBState::READY,
            priority: 2,
            parent: Some(7),
            children: Vec::new(),
            resources: Vec::new()
        }
    );
}

#[test]
fn boundaries_are_rejected_without_a_trace() {
    let mut scheduler = Scheduler::new();
    scheduler.create(1);
    scheduler.request(3, 2);

    assert_eq!(scheduler.create(3), None);
    assert_eq!(scheduler.create(-1), None);
    assert_eq!(scheduler.create(i32::MAX), None);
    assert_eq!(scheduler.create(i32::MIN), None);
    assert_eq!(scheduler.destroy(0), None);
    assert_eq!(scheduler.destroy(2), None);
    assert_eq!(scheduler.destroy(16), None);
    assert_eq!(scheduler.destroy(i32::MIN), None);
    assert_eq!(scheduler.request(3, 4), None);
    assert_eq!(scheduler.request(2, 3), None);
    assert_eq!(scheduler.request(0, 2), None);
    assert_eq!(scheduler.request(4, 1), None);
    assert_eq!(scheduler.request(3, 0), None);
    assert_eq!(scheduler.request(3, i32::MAX), None);
    assert_eq!(scheduler.release(3, 1), None);
    assert_eq!(scheduler.release(3, 3), None);
    assert_eq!(scheduler.release(2, 2), None);
    assert_eq!(scheduler.release(3, i32::MAX), None);
    assert_eq!(scheduler.release(4, 2), None);

    assert_eq!(scheduler.running_pid, 1);
    assert_eq!(scheduler.ready_list, [vec![0], vec![1], Vec::new()]);
    assert_eq!(
        scheduler.pcb_list[1].as_ref().unwrap(),
        &PCB {
            children: Vec::new(),
            parent: Some(0),
            priority: 1,
            state: PCBState::READY,
            resources: vec![PCBResource { rid: 3, units: 2 }]
        }
    );
    assert_eq!(
        scheduler.rcb_list[3],
        RCB {
            inventory: 3,
            units_available: 1,
            waitlist: Vec::new()
        }
    );
    assert_in_order(&scheduler);
}

#[test]
fn request_then_release_restores() {
    let mut scheduler = Scheduler::new();
    scheduler.create(1);
    scheduler.request(2, 1);
    scheduler.request(3, 1);

    assert_eq!(scheduler.request(3, 2), Some(1));
    assert_eq!(scheduler.rcb_list[3].units_available, 0);
    assert_eq!(scheduler.release(3, 2), Some(1));

    assert_eq!(scheduler.rcb_list[3].units_available, 2);
    assert_eq!(scheduler.rcb_list[2].units_available, 1);
    assert_eq!(
        scheduler.pcb_list[1].as_ref().unwrap().resources,
        vec![
            PCBResource { rid: 2, units: 1 },
            PCBResource { rid: 3, units: 1 }
        ]
    );
    assert_eq!(scheduler.ready_list, [vec![0], vec![1], Vec::new()]);
    assert_eq!(scheduler.running_pid, 1);

    // with an equal grant held before, the first of the two is given back
    assert_eq!(scheduler.request(3, 1), Some(1));
    assert_eq!(scheduler.release(3, 1), Some(1));
    assert_eq!(
        scheduler.pcb_list[1].as_ref().unwrap().resources,
        vec![
            PCBResource { rid: 2, units: 1 },
            PCBResource { rid: 3, units: 1 }
        ]
    );
    assert_eq!(scheduler.request(2, 1), Some(1));
    assert_eq!(scheduler.release(2, 1), Some(1));
    assert_eq!(
        scheduler.pcb_list[1].as_ref().unwrap().resources,
        vec![
            PCBResource { rid: 3, units: 1 },
            PCBResource { rid: 2, units: 1 }
        ]
    );
    assert_eq!(scheduler.rcb_list[2].units_available, 1);
    assert_eq!(scheduler.rcb_list[3].units_available, 2);
    assert_in_order(&scheduler);
}

#[test]
fn timeout_goes_round_within_one_priority() {
    let mut scheduler = Scheduler::new();
    assert_eq!(scheduler.timeout(), Some(0));
    assert_eq!(scheduler.ready_list, [vec![0], Vec::new(), Vec::new()]);

    scheduler.create(0); // Process 1
    scheduler.create(0); // Process 2
    assert_eq!(scheduler.ready_list, [vec![0, 1, 2], Vec::new(), Vec::new()]);
    assert_eq!(scheduler.timeout(), Some(1));
    assert_eq!(scheduler.ready_list, [vec![1, 2, 0], Vec::new(), Vec::new()]);
    assert_eq!(scheduler.timeout(), Some(2));
    assert_eq!(scheduler.timeout(), Some(0));
    assert_eq!(scheduler.ready_list, [vec![0, 1, 2], Vec::new(), Vec::new()]);

    // a higher priority keeps the lower ones from running
    assert_eq!(scheduler.create(1), Some(3));
    assert_eq!(scheduler.timeout(), Some(3));
    assert_eq!(scheduler.ready_list, [vec![0, 1, 2], vec![3], Vec::new()]);
    assert_eq!(scheduler.create(1), Some(3));
    assert_eq!(scheduler.timeout(), Some(4));
    assert_eq!(scheduler.ready_list, [vec![0, 1, 2], vec![4, 3], Vec::new()]);
    assert_in_order(&scheduler);
}

#[test]
fn scheduler_selects_the_head_of_the_highest_queue() {
    let mut scheduler = Scheduler::new();
    scheduler.create(1);
    scheduler.create(2);
    scheduler.running_pid = 0;
    assert_eq!(scheduler.scheduler(), 2);
    assert_eq!(scheduler.running_pid, 2);
    assert_eq!(scheduler.destroy(2), Some(1));
    assert_eq!(scheduler.scheduler(), 1);
    assert_eq!(scheduler.destroy(1), Some(0));
    assert_eq!(scheduler.scheduler(), 0);
}

#[test]
fn release_helper_releases_for_the_named_process() {
    let mut scheduler = Scheduler::new();
    scheduler.create(1); // Process 1
    scheduler.request(3, 3);
    scheduler.create(2); // Process 2 runs
    assert_eq!(scheduler.request(3, 2), Some(1));
    assert_eq!(scheduler.running_pid, 1);

    assert_eq!(scheduler.release_helper(2, 3, 3), None);
    assert_eq!(scheduler.release_helper(0, 3, 3), None);
    assert_eq!(scheduler.release_helper(3, 3, 3), None);
    assert_eq!(scheduler.release_helper(16, 3, 3), None);
    assert_eq!(scheduler.release_helper(1, 4, 3), None);
    assert_eq!(scheduler.release_helper(1, 3, 0), None);
    assert_eq!(scheduler.release_helper(1, 3, 2), None);
    assert_eq!(scheduler.rcb_list[3].units_available, 0);

    assert_eq!(scheduler.release_helper(1, 3, 3), Some(2));
    assert_eq!(
        scheduler.rcb_list[3],
        RCB {
            inventory: 3,
            units_available: 1,
            waitlist: Vec::new()
        }
    );
    assert_eq!(
        scheduler.pcb_list[2].as_ref().unwrap().resources,
        vec![PCBResource { rid: 3, units: 2 }]
    );
    assert_eq!(scheduler.pcb_list[2].as_ref().unwrap().state, PCBState::READY);
    assert_in_order(&scheduler);
}

#[test]
fn slots_are_filled_from_the_lowest() {
    let mut scheduler = Scheduler::new();
    scheduler.create(0); // Process 1
    scheduler.create(0); // Process 2
    scheduler.create(0); // Process 3
    assert_eq!(scheduler.destroy(2), Some(0));
    assert_eq!(scheduler.destroy(1), Some(0));
    assert_eq!(scheduler.pcb_list[0].as_ref().unwrap().children, vec![3]);
    assert_eq!(scheduler.create(1), Some(1));
    assert_eq!(scheduler.pcb_list[0].as_ref().unwrap().children, vec![3, 1]);
    assert_eq!(scheduler.create(1), Some(1));
    assert_eq!(scheduler.pcb_list[1].as_ref().unwrap().children, vec![2]);
    assert_eq!(scheduler.create(1), Some(1));
    assert_eq!(scheduler.pcb_list[1].as_ref().unwrap().children, vec![2, 4]);
    assert_in_order(&scheduler);
}

#[test]
fn long_run_stays_in_order() {
    let mut scheduler = Scheduler::new();
    let mut seed: u32 = 12345;
    let mut accepted = 0;
    for _ in 0..20000 {
        seed = seed.wrapping_mul(1103515245).wrapping_add(12345);
        let kind = (seed >> 16) % 12;
        seed = seed.wrapping_mul(1103515245).wrapping_add(12345);
        let a = ((seed >> 16) % 19) as i32 - 1;
        seed = seed.wrapping_mul(1103515245).wrapping_add(12345);
        let b = ((seed >> 16) % 5) as i32;
        let result = match kind {
            0 | 1 | 2 => scheduler.create(a % 4),
            3 => scheduler.destroy(a),
            4 | 5 | 6 => scheduler.request(a % 5, b),
            7 | 8 => scheduler.release(a % 5, b),
            _ => scheduler.timeout(),
        };
        if let Some(running) = result {
            accepted += 1;
            assert_eq!(running, scheduler.running_pid);
        }
        assert_in_order(&scheduler);
    }
    assert!(accepted > 1000);
}
