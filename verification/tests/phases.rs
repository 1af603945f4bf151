use crack_simulator::edge::{Edge, EdgeIndex, EdgeUpdateStatus};
use crack_simulator::edge_update_list::EdgeUpdateList;
use crack_simulator::graph::{Graph, NotFound};
use crack_simulator::node::NodeIndex;

fn idle(_: EdgeIndex, _: bool) -> bool {
    false
}

fn no_share(_: EdgeIndex, _: [Option<EdgeIndex>; 4]) -> [bool; 4] {
    [false; 4]
}

fn at(row: usize, col: usize, ty: usize) -> EdgeIndex {
    EdgeIndex { row, col, ty }
}

fn node(row: usize, col: usize) -> NodeIndex {
    NodeIndex { row, col }
}

fn state(g: &Graph, i: EdgeIndex) -> (bool, EdgeUpdateStatus) {
    let e = g.get_edge(i).unwrap();
    (e.cracked, e.get_update_status())
}

fn queue(g: &Graph) -> Vec<EdgeIndex> {
    g.update_edge_list().v.iter().copied().collect()
}

fn settled(rows: usize, cols: usize) -> Graph {
    let mut g = Graph::new(rows, cols);
    g.update_graph_edge_stresses(idle, None);
    assert_eq!(g.get_update_amt(), 0);
    g
}

#[test]
fn test_update_edge_stresses() {
    let mut g = Graph::new(1080, 1920);

    g.update_graph_edge_stresses(idle, None);
    assert_eq!(g.get_update_amt(), 0);

    g.update_graph_edge_stresses(idle, None);
    assert_eq!(g.get_update_amt(), 0);
}

#[test]
fn test_main_loop() {
    let mut g = Graph::new(1080, 1920);
    assert!(g.get_update_amt() <= 1080 * 1920 * 3);
    for _ in 0..10 {
        g.main_loop(idle, no_share);
    }
    assert_eq!(g.get_update_amt(), 0);
}

#[test]
fn test_debug_print() {
    let mut g = Graph::new(10, 10);
    g.main_loop(idle, no_share);

    for _ in 0..100 {
        g.main_loop(idle, no_share);
    }

    let picture = g.debug_print();
    let lines: Vec<&str> = picture.split('\n').collect();
    assert_eq!(lines.len(), 21);
    assert_eq!(lines[0], "o---o---o---o---o---o---o---o---o---o   ");
    assert_eq!(lines[1], " \\ / \\ / \\ / \\ / \\ / \\ / \\ / \\ / \\ / \\");
    assert_eq!(lines[2], "  o---o---o---o---o---o---o---o---o---o   ");
    assert_eq!(lines[20], "");
}

#[test]
fn picture_of_a_small_lattice() {
    let mut g = settled(2, 3);
    assert_eq!(g.debug_print(), "o---o---o   \n \\ / \\ / \\\n  o---o---o   \n            \n");
    g.add_stress(at(0, 1, 0)).unwrap();
    g.add_stress(at(0, 1, 1)).unwrap();
    g.add_stress(at(0, 2, 2)).unwrap();
    g.update_graph_edge_stresses(|_, _| true, None);
    assert_eq!(g.debug_print(), "o---o   o   \n \\   \\ /  \n  o---o---o   \n            \n");
    assert_eq!(Graph::new(0, 5).debug_print(), "");
    assert_eq!(Graph::new(1, 0).debug_print(), "\n \n");
}

#[test]
fn graph_starts_with_every_edge_waiting_for_a_commit() {
    let g = Graph::new(3, 3);
    assert_eq!(g.get_update_amt(), 16);
    assert_eq!(g.next_update(), Some(at(0, 0, 0)));
    assert!(!g.valid_edge_assert_not(EdgeUpdateStatus::StressUpdate));
    assert!(g.valid_edge_assert_not(EdgeUpdateStatus::PropogationUpdate));
    assert!(g.valid_edge_assert_not(EdgeUpdateStatus::NoUpdate));
    assert_eq!(state(&g, at(1, 1, 2)), (false, EdgeUpdateStatus::StressUpdate));
}

#[test]
fn add_stress_fails_where_no_edge_is() {
    let mut g = settled(3, 3);
    for i in [at(0, 2, 0), at(2, 0, 1), at(0, 0, 1), at(1, 2, 2), at(3, 0, 0), at(0, 3, 0), at(0, 0, 3), at(9, 9, 9)] {
        assert_eq!(g.add_stress(i), Err(NotFound));
        assert_eq!(g.get_update_amt(), 0);
    }
    for row in 0..3 {
        for col in 0..3 {
            for ty in 0..3 {
                if g.get_edge(at(row, col, ty)).is_some() {
                    assert_eq!(state(&g, at(row, col, ty)), (false, EdgeUpdateStatus::NoUpdate));
                }
            }
        }
    }
}

#[test]
fn add_stress_schedules_an_edge_once() {
    let mut g = settled(3, 3);
    assert_eq!(g.add_stress(at(1, 1, 0)), Ok(()));
    assert_eq!(queue(&g), vec![at(1, 1, 0)]);
    assert_eq!(state(&g, at(1, 1, 0)), (false, EdgeUpdateStatus::StressUpdate));
    assert_eq!(g.add_stress(at(1, 1, 0)), Ok(()));
    assert_eq!(g.get_update_amt(), 1);
    assert_eq!(g.add_stress(at(0, 0, 2)), Ok(()));
    assert_eq!(queue(&g), vec![at(1, 1, 0), at(0, 0, 2)]);
}

#[test]
fn commit_phase_on_an_empty_queue_changes_nothing() {
    let mut g = settled(4, 4);
    g.add_stress(at(1, 1, 0)).unwrap();
    g.update_graph_edge_stresses(|_, _| true, None);
    g.update_graph_stress_propagation(no_share);
    assert_eq!(g.get_update_amt(), 0);
    let before = g.debug_print();
    let mut triangles = vec![node(7, 7)];
    let asked = std::cell::Cell::new(0);
    g.update_graph_edge_stresses(
        |_, _| {
            asked.set(asked.get() + 1);
            true
        },
        Some(&mut triangles),
    );
    assert_eq!(asked.get(), 0);
    assert_eq!(g.get_update_amt(), 0);
    assert_eq!(triangles, vec![node(7, 7)]);
    assert_eq!(g.debug_print(), before);
    assert_eq!(state(&g, at(1, 1, 0)), (true, EdgeUpdateStatus::NoUpdate));
    assert_eq!(state(&g, at(1, 1, 1)), (false, EdgeUpdateStatus::NoUpdate));
    g.update_graph_stress_propagation(|_, _| [true; 4]);
    g.main_loop(|_, _| true, |_, _| [true; 4]);
    assert_eq!(g.get_update_amt(), 0);
    assert_eq!(g.debug_print(), before);
}

#[test]
fn one_edge_through_both_phases() {
    let mut g = settled(3, 3);
    g.add_stress(at(1, 1, 0)).unwrap();

    assert_eq!(g.next_update(), Some(at(1, 1, 0)));
    assert!(g.commit_next(true));
    assert_eq!(state(&g, at(1, 1, 0)), (true, EdgeUpdateStatus::PropogationUpdate));
    assert_eq!(queue(&g), vec![at(1, 1, 0)]);
    assert!(g.valid_edge_assert_not(EdgeUpdateStatus::StressUpdate));
    assert!(!g.valid_edge_assert_not(EdgeUpdateStatus::PropogationUpdate));

    let to = g.receivers(at(1, 1, 0));
    assert_eq!(to, [Some(at(0, 2, 1)), Some(at(0, 2, 2)), Some(at(1, 1, 2)), Some(at(1, 2, 1))]);

    let mut corners = Vec::new();
    g.collect_triangles(at(1, 1, 0), &mut corners);
    assert_eq!(corners, vec![node(0, 2), node(1, 1), node(1, 2), node(1, 1), node(2, 2), node(1, 2)]);

    g.propagate_next([true, false, false, true]);
    assert_eq!(queue(&g), vec![at(0, 2, 1), at(1, 2, 1)]);
    assert_eq!(state(&g, at(1, 1, 0)), (true, EdgeUpdateStatus::NoUpdate));
    assert_eq!(state(&g, at(0, 2, 1)), (false, EdgeUpdateStatus::StressUpdate));
    assert_eq!(state(&g, at(0, 2, 2)), (false, EdgeUpdateStatus::NoUpdate));
    assert_eq!(state(&g, at(1, 1, 2)), (false, EdgeUpdateStatus::NoUpdate));
    assert_eq!(state(&g, at(1, 2, 1)), (false, EdgeUpdateStatus::StressUpdate));
    assert!(g.valid_edge_assert_not(EdgeUpdateStatus::PropogationUpdate));
    assert!(g.valid_edge_assert_not(EdgeUpdateStatus::NoUpdate));
}

#[test]
fn commit_verdicts_by_edge_state() {
    let mut g = settled(3, 3);
    // An intact edge that is not loaded leaves the schedule.
    g.add_stress(at(0, 0, 0)).unwrap();
    assert!(!g.commit_next(false));
    assert_eq!(state(&g, at(0, 0, 0)), (false, EdgeUpdateStatus::NoUpdate));
    assert_eq!(g.get_update_amt(), 0);
    // An intact edge that is loaded fractures and waits for propagation.
    g.add_stress(at(0, 0, 0)).unwrap();
    assert!(g.commit_next(true));
    assert_eq!(state(&g, at(0, 0, 0)), (true, EdgeUpdateStatus::PropogationUpdate));
    g.propagate_next([false; 4]);
    assert_eq!(state(&g, at(0, 0, 0)), (true, EdgeUpdateStatus::NoUpdate));
    // A fractured edge that is loaded again is queued again, and does not
    // fracture a second time.
    g.add_stress(at(0, 0, 0)).unwrap();
    assert!(!g.commit_next(true));
    assert_eq!(state(&g, at(0, 0, 0)), (true, EdgeUpdateStatus::PropogationUpdate));
    assert_eq!(queue(&g), vec![at(0, 0, 0)]);
    g.propagate_next([false; 4]);
    // A fractured edge that is not loaded leaves the schedule.
    g.add_stress(at(0, 0, 0)).unwrap();
    assert!(!g.commit_next(false));
    assert_eq!(state(&g, at(0, 0, 0)), (true, EdgeUpdateStatus::NoUpdate));
    assert_eq!(g.get_update_amt(), 0);
    // So the next stimulus queues it again.
    assert_eq!(g.add_stress(at(0, 0, 0)), Ok(()));
    assert_eq!(queue(&g), vec![at(0, 0, 0)]);
    assert_eq!(state(&g, at(0, 0, 0)), (true, EdgeUpdateStatus::StressUpdate));
}

#[test]
fn fractured_edge_without_pending_stress_can_be_stimulated_again() {
    let mut g = settled(3, 3);
    g.add_stress(at(1, 1, 0)).unwrap();
    g.main_loop(|_, _| true, no_share);
    assert_eq!(state(&g, at(1, 1, 0)), (true, EdgeUpdateStatus::NoUpdate));
    // A stimulus that the model finds empty.
    g.add_stress(at(1, 1, 0)).unwrap();
    g.update_graph_edge_stresses(idle, None);
    assert_eq!(g.get_update_amt(), 0);
    assert_eq!(state(&g, at(1, 1, 0)), (true, EdgeUpdateStatus::NoUpdate));
    // The next one is queued and committed.
    g.add_stress(at(1, 1, 0)).unwrap();
    assert_eq!(queue(&g), vec![at(1, 1, 0)]);
    let asked = std::cell::Cell::new(0);
    g.update_graph_edge_stresses(
        |i, cracked| {
            assert_eq!((i, cracked), (at(1, 1, 0), true));
            asked.set(asked.get() + 1);
            true
        },
        None,
    );
    assert_eq!(asked.get(), 1);
    assert_eq!(state(&g, at(1, 1, 0)), (true, EdgeUpdateStatus::PropogationUpdate));
}

#[test]
fn steps_on_an_empty_queue_change_nothing() {
    let mut g = settled(3, 3);
    g.add_stress(at(1, 1, 0)).unwrap();
    g.main_loop(|_, _| true, no_share);
    assert_eq!(g.get_update_amt(), 0);
    let before = g.debug_print();
    assert_eq!(g.next_update(), None);
    assert!(!g.commit_next(true));
    assert!(!g.commit_next(false));
    g.propagate_next([true; 4]);
    assert_eq!(g.get_update_amt(), 0);
    assert_eq!(g.debug_print(), before);
    for row in 0..3 {
        for col in 0..3 {
            for ty in 0..3 {
                if g.get_edge(at(row, col, ty)).is_some() {
                    assert_eq!(state(&g, at(row, col, ty)).1, EdgeUpdateStatus::NoUpdate);
                }
            }
        }
    }
}

#[test]
fn places_without_an_edge_have_no_receivers() {
    let g = settled(4, 4);
    for i in [at(0, 3, 0), at(0, 0, 1), at(3, 1, 2), at(9, 9, 0), at(1, 1, 3), at(usize::MAX, usize::MAX, 7)] {
        assert!(g.get_edge(i).is_none());
        if i.ty < 3 {
            // The addresses around it may be there; as receivers they are
            // taken side by side.
            let to = g.receivers(i);
            assert_eq!(to[0].is_some(), to[1].is_some());
            assert_eq!(to[2].is_some(), to[3].is_some());
        } else {
            assert_eq!(g.receivers(i), [None; 4]);
            let mut corners = Vec::new();
            g.collect_triangles(i, &mut corners);
            assert!(corners.is_empty());
        }
    }
}

#[test]
fn edge_takes_in_verdicts() {
    let mut g = settled(2, 2);
    let mut list = EdgeUpdateList::new(4);
    let e: &mut Edge = g.get_edge_mut(at(0, 0, 0)).unwrap();
    e.add_stress(&mut list);
    assert!(e.get_update_status() == EdgeUpdateStatus::StressUpdate);
    e.add_stress(&mut list);
    assert_eq!(list.size(), 1);
    assert!(!e.update_total_stress(false, &mut list));
    assert!(e.get_update_status() == EdgeUpdateStatus::NoUpdate && !e.cracked);
    assert_eq!(list.size(), 1);
    assert!(e.update_total_stress(true, &mut list));
    assert!(e.get_update_status() == EdgeUpdateStatus::PropogationUpdate && e.cracked);
    assert_eq!(list.size(), 2);
    e.set_update_status_propogated();
    assert!(e.get_update_status() == EdgeUpdateStatus::NoUpdate);
    e.set_scheduled_for_stress_update();
    e.set_update_status_propogated();
    assert!(e.get_update_status() == EdgeUpdateStatus::StressUpdate);
    // Fractured, waiting for a commit, not loaded: it leaves the schedule.
    assert!(!e.update_total_stress(false, &mut list));
    assert!(e.get_update_status() == EdgeUpdateStatus::NoUpdate && e.cracked);
    assert_eq!(list.size(), 2);
    // Fractured, waiting for propagation, not loaded: it keeps waiting.
    e.set_scheduled_for_propagate_update();
    assert!(!e.update_total_stress(false, &mut list));
    assert!(e.get_update_status() == EdgeUpdateStatus::PropogationUpdate && e.cracked);
    assert_eq!(list.size(), 2);
    e.set_not_scheduled_for_update();
    assert!(e.get_update_status() == EdgeUpdateStatus::NoUpdate);
    e.set_scheduled_for_propagate_update();
    assert!(e.get_update_status() == EdgeUpdateStatus::PropogationUpdate);
    assert_eq!(list.pop(), Some(at(0, 0, 0)));
}

#[test]
fn commit_phase_visits_only_what_was_queued_at_the_call() {
    let mut g = settled(3, 3);
    g.add_stress(at(0, 0, 0)).unwrap();
    g.add_stress(at(1, 1, 0)).unwrap();
    g.add_stress(at(1, 1, 2)).unwrap();
    let asked = std::cell::RefCell::new(Vec::new());
    let mut triangles = Vec::new();
    g.update_graph_edge_stresses(
        |i, cracked| {
            asked.borrow_mut().push((i, cracked));
            i != at(1, 1, 2)
        },
        Some(&mut triangles),
    );
    assert_eq!(*asked.borrow(), vec![(at(0, 0, 0), false), (at(1, 1, 0), false), (at(1, 1, 2), false)]);
    assert_eq!(queue(&g), vec![at(0, 0, 0), at(1, 1, 0)]);
    // The first edge lies on the border and has one triangle, the second
    // has two.
    assert_eq!(
        triangles,
        vec![
            node(0, 0),
            node(1, 0),
            node(0, 1),
            node(0, 2),
            node(1, 1),
            node(1, 2),
            node(1, 1),
            node(2, 2),
            node(1, 2)
        ]
    );
    assert_eq!(state(&g, at(1, 1, 2)), (false, EdgeUpdateStatus::NoUpdate));
    assert!(g.valid_edge_assert_not(EdgeUpdateStatus::StressUpdate));
}

#[test]
fn propagation_phase_schedules_receivers_once() {
    let mut g = settled(3, 3);
    g.add_stress(at(1, 1, 0)).unwrap();
    g.add_stress(at(1, 1, 2)).unwrap();
    g.update_graph_edge_stresses(|_, _| true, None);
    let asked = std::cell::RefCell::new(Vec::new());
    g.update_graph_stress_propagation(|i, to| {
        asked.borrow_mut().push((i, to));
        [true; 4]
    });
    assert_eq!(
        *asked.borrow(),
        vec![
            (at(1, 1, 0), [Some(at(0, 2, 1)), Some(at(0, 2, 2)), Some(at(1, 1, 2)), Some(at(1, 2, 1))]),
            (at(1, 1, 2), [Some(at(1, 1, 0)), Some(at(1, 2, 1)), Some(at(1, 1, 1)), Some(at(2, 1, 0))]),
        ]
    );
    // The second edge was still waiting for its own propagation when the
    // first one scheduled it; each receiver is queued once.
    assert_eq!(
        queue(&g),
        vec![at(0, 2, 1), at(0, 2, 2), at(1, 1, 2), at(1, 2, 1), at(1, 1, 0), at(1, 1, 1), at(2, 1, 0)]
    );
    assert!(g.valid_edge_assert_not(EdgeUpdateStatus::PropogationUpdate));
    assert_eq!(state(&g, at(1, 1, 0)), (true, EdgeUpdateStatus::StressUpdate));
    assert_eq!(state(&g, at(1, 1, 2)), (true, EdgeUpdateStatus::StressUpdate));
}

#[test]
fn border_edges_have_one_side_only() {
    let g = settled(4, 4);
    assert_eq!(g.receivers(at(0, 1, 0)), [None, None, Some(at(0, 1, 2)), Some(at(0, 2, 1))]);
    assert_eq!(g.receivers(at(3, 1, 0)), [Some(at(2, 2, 1)), Some(at(2, 2, 2)), None, None]);
    assert_eq!(g.receivers(at(0, 0, 2)), [Some(at(0, 0, 0)), Some(at(0, 1, 1)), None, None]);
    assert_eq!(g.receivers(at(1, 0, 1)), [None, None, Some(at(2, 0, 0)), Some(at(1, 0, 2))]);
    assert_eq!(g.receivers(at(0, 3, 2)), [None, None, Some(at(0, 3, 1)), Some(at(1, 2, 0))]);
    let mut corners = Vec::new();
    g.collect_triangles(at(0, 3, 2), &mut corners);
    assert_eq!(corners, vec![node(0, 3), node(1, 2), node(1, 3)]);
}

#[test]
fn fractures_are_never_mended() {
    let mut g = settled(6, 6);
    let mut cracked: Vec<EdgeIndex> = Vec::new();
    let mut turn = 0usize;
    for i in [at(2, 2, 0), at(3, 1, 1), at(1, 4, 2)] {
        g.add_stress(i).unwrap();
    }
    for _ in 0..12 {
        turn += 1;
        let t = turn;
        g.main_loop(|i, _| (i.row + i.col + i.ty + t) % 3 != 0, |_, to| [to[0].is_some(), false, true, t % 2 == 0]);
        for i in &cracked {
            assert!(g.get_edge(*i).unwrap().cracked);
        }
        for row in 0..6 {
            for col in 0..6 {
                for ty in 0..3 {
                    if let Some(e) = g.get_edge(at(row, col, ty)) {
                        if e.cracked && !cracked.contains(&e.index) {
                            cracked.push(e.index);
                        }
                    }
                }
            }
        }
        assert!(g.valid_edge_assert_not(EdgeUpdateStatus::PropogationUpdate));
    }
    assert!(cracked.len() > 3);
}

#[test]
fn queue_names_no_edge_twice_between_phases() {
    let mut g = settled(6, 6);
    let distinct = |g: &Graph| {
        let q = queue(g);
        let mut seen = std::collections::HashSet::new();
        q.iter().all(|i| seen.insert((i.row, i.col, i.ty)))
    };
    for i in [at(2, 2, 0), at(2, 2, 2), at(2, 3, 1), at(2, 2, 0)] {
        g.add_stress(i).unwrap();
        assert!(distinct(&g));
    }
    for _ in 0..8 {
        g.update_graph_edge_stresses(|_, _| true, None);
        assert!(distinct(&g));
        assert!(g.valid_edge_assert_not(EdgeUpdateStatus::StressUpdate));
        assert!(g.valid_edge_assert_not(EdgeUpdateStatus::NoUpdate));
        g.update_graph_stress_propagation(|_, _| [true; 4]);
        assert!(distinct(&g));
        assert!(g.valid_edge_assert_not(EdgeUpdateStatus::PropogationUpdate));
        assert!(g.valid_edge_assert_not(EdgeUpdateStatus::NoUpdate));
        g.add_stress(at(3, 3, 0)).unwrap();
        assert!(distinct(&g));
    }
    assert!(g.get_update_amt() > 10);
}

#[test]
fn status_says_what_the_queue_holds() {
    let mut g = Graph::new(6, 6);
    let agrees = |g: &Graph, waiting: EdgeUpdateStatus| {
        let q = queue(g);
        for row in 0..6 {
            for col in 0..6 {
                for ty in 0..3 {
                    if let Some(e) = g.get_edge(at(row, col, ty)) {
                        let times = q.iter().filter(|i| **i == e.index).count();
                        if times == 0 {
                            assert!(e.get_update_status() == EdgeUpdateStatus::NoUpdate);
                        } else {
                            assert_eq!(times, 1);
                            assert!(e.get_update_status() == waiting);
                        }
                    }
                }
            }
        }
    };
    agrees(&g, EdgeUpdateStatus::StressUpdate);
    for turn in 0..10usize {
        g.update_graph_edge_stresses(|i, _| (i.row + 2 * i.col + i.ty + turn) % 3 == 0, None);
        agrees(&g, EdgeUpdateStatus::PropogationUpdate);
        g.update_graph_stress_propagation(|i, _| [i.ty == 0, true, turn % 2 == 0, i.row % 2 == 1]);
        agrees(&g, EdgeUpdateStatus::StressUpdate);
        for i in [at(2, 2, 0), at(3, 1, 1), at(2, 2, 0), at(0, 0, 2)] {
            g.add_stress(i).unwrap();
            agrees(&g, EdgeUpdateStatus::StressUpdate);
        }
        g.main_loop(|_, cracked| !cracked, |_, _| [true, false, false, true]);
        agrees(&g, EdgeUpdateStatus::StressUpdate);
    }
}

#[test]
fn mutable_lookups_reach_the_arena() {
    let mut g = settled(3, 3);
    assert!(g.get_edge_mut(at(0, 2, 0)).is_none());
    g.get_edge_mut(at(0, 0, 0)).unwrap().cracked = true;
    assert!(g.get_edge(at(0, 0, 0)).unwrap().cracked);
    assert!(g.edge_matrix().get(at(0, 0, 0)).unwrap().cracked);
    let n = g.get_node_mut(node(1, 1));
    assert_eq!(n.index, node(1, 1));
    assert_eq!(g.get_node(node(1, 1)).index, node(1, 1));
}
