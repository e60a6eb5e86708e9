use pacman::pathfinding::{list_contains, AStar, Node};
use pacman::utils::find_neighbors;

fn assert_leads(path: &[(i32, i32)], start: (i32, i32), goal: (i32, i32), width: i32, height: i32) {
    assert_eq!(path.first(), Some(&start));
    assert_eq!(path.last(), Some(&goal));
    for pair in path.windows(2) {
        assert!(0 <= pair[1].0 && pair[1].0 < width && 0 <= pair[1].1 && pair[1].1 < height);
        assert!(find_neighbors(pair[0], width, height).contains(&pair[1]));
    }
}

#[test]
fn fresh_node_knows_its_neighbors() {
    let node = Node::new((1, 1), 3, 3);
    assert_eq!((node.g, node.h, node.f), (0, 0, 0));
    assert_eq!(node.pos, (1, 1));
    assert_eq!(node.neighbors, find_neighbors((1, 1), 3, 3));
    assert_eq!(node.neighbors.len(), 8);
}

#[test]
fn fresh_search_has_a_node_for_every_cell() {
    let search = AStar::new(4, 3);
    assert!(search.get_open_list().is_empty());
    assert!(search.get_closed_list().is_empty());
    assert_eq!(search.get_goal(), None);
    for c in 0..4 {
        for r in 0..3 {
            let node = search.get_node((c, r)).unwrap();
            assert_eq!(node.pos, (c, r));
            assert_eq!((node.g, node.h, node.f), (0, 0, 0));
            assert_eq!(node.neighbors, find_neighbors((c, r), 4, 3));
        }
    }
    assert!(search.get_node((4, 0)).is_none());
    assert!(search.get_node((0, 3)).is_none());
    assert!(search.get_node((-1, 0)).is_none());
    assert!(search.get_node((0, -1)).is_none());
}

#[test]
fn list_membership() {
    let list = vec![(1, 2), (3, 4)];
    assert!(list_contains(&list, (1, 2)));
    assert!(list_contains(&list, (3, 4)));
    assert!(!list_contains(&list, (2, 1)));
    assert!(!list_contains(&Vec::new(), (0, 0)));
}

#[test]
fn path_from_a_cell_to_itself_is_the_cell() {
    let mut search = AStar::new(7, 5);
    assert_eq!(search.find_path((3, 2), (3, 2)), Some(vec![(3, 2)]));
    assert!(search.get_open_list().is_empty());
    assert!(search.get_closed_list().is_empty());
    assert_eq!(search.get_goal(), Some((3, 2)));
    assert_eq!(search.find_path((9, 9), (9, 9)), Some(vec![(9, 9)]));
}

#[test]
fn path_leads_from_start_to_goal() {
    let mut search = AStar::new(7, 5);
    let path = search.find_path((1, 1), (5, 3)).unwrap();
    assert_eq!(path, vec![(1, 1), (2, 2), (3, 3), (4, 3), (5, 3)]);
    assert_leads(&path, (1, 1), (5, 3), 7, 5);
    assert_eq!(search.get_closed_list(), &vec![(1, 1), (2, 2), (3, 3), (4, 3)]);
    assert_eq!(search.get_goal(), Some((5, 3)));
}

#[test]
fn path_may_cross_the_edges() {
    let mut search = AStar::new(5, 5);
    let path = search.find_path((0, 0), (4, 4)).unwrap();
    assert_eq!(path, vec![(0, 0), (4, 1), (4, 2), (4, 3), (4, 4)]);
    assert_leads(&path, (0, 0), (4, 4), 5, 5);
    let mut search = AStar::new(6, 1);
    assert_eq!(search.find_path((0, 0), (3, 0)), Some(vec![(0, 0), (5, 0), (4, 0), (3, 0)]));
}

#[test]
fn costs_of_earlier_searches_stay_in_the_nodes() {
    let mut search = AStar::new(5, 5);
    assert_eq!(search.find_path((0, 0), (4, 4)), Some(vec![(0, 0), (4, 1), (4, 2), (4, 3), (4, 4)]));
    let second = search.find_path((0, 0), (2, 2)).unwrap();
    assert_eq!(second, vec![(0, 0), (1, 1), (2, 2)]);
    assert_eq!(search.get_closed_list(), &vec![(0, 0), (1, 1)]);
    let third = search.find_path((4, 4), (1, 3)).unwrap();
    assert_eq!(third, vec![(4, 4), (0, 3), (1, 3)]);
    assert_leads(&third, (4, 4), (1, 3), 5, 5);
}

#[test]
fn search_scores_the_cells_it_reaches() {
    let mut search = AStar::new(3, 3);
    assert_eq!(search.find_path((0, 0), (2, 2)), Some(vec![(0, 0), (2, 1), (2, 2)]));
    assert_eq!(search.get_open_list(), &vec![(2, 0), (0, 2), (0, 1), (1, 0), (1, 1)]);
    assert_eq!(search.get_closed_list(), &vec![(0, 0), (2, 1), (1, 2)]);
    let goal = search.get_node((2, 2)).unwrap();
    assert_eq!((goal.g, goal.h, goal.f), (2, 0, 2));
    let middle = search.get_node((1, 1)).unwrap();
    assert_eq!((middle.g, middle.h, middle.f), (1, 2, 3));
}

#[test]
fn goal_off_the_board_cannot_be_reached() {
    let mut search = AStar::new(7, 5);
    assert_eq!(search.find_path((3, 2), (9, 9)), None);
    assert_eq!(search.get_closed_list().len(), 35);
    assert!(search.get_open_list().is_empty());
    let mut search = AStar::new(1, 1);
    assert_eq!(search.find_path((0, 0), (1, 0)), None);
    assert_eq!(search.find_path((0, 0), (0, 0)), Some(vec![(0, 0)]));
}

#[test]
fn every_cell_of_a_board_can_be_reached_from_every_other() {
    let (w, h) = (4, 3);
    let mut search = AStar::new(w, h);
    for sx in 0..w {
        for sy in 0..h {
            for gx in 0..w {
                for gy in 0..h {
                    let path = search.find_path((sx, sy), (gx, gy)).unwrap();
                    assert_leads(&path, (sx, sy), (gx, gy), w, h);
                }
            }
        }
    }
}

#[test]
fn set_goal_renews_the_estimates_of_the_open_cells() {
    let mut search = AStar::new(3, 3);
    search.find_path((0, 0), (2, 2));
    search.set_goal((0, 0));
    assert_eq!(search.get_goal(), Some((0, 0)));
    assert_eq!(search.get_open_list(), &vec![(2, 0), (0, 2), (0, 1), (1, 0), (1, 1)]);
    let middle = search.get_node((1, 1)).unwrap();
    assert_eq!((middle.g, middle.h, middle.f), (1, 2, 3));
    let side = search.get_node((1, 0)).unwrap();
    assert_eq!((side.g, side.h, side.f), (1, 1, 2));
    let goal = search.get_node((2, 2)).unwrap();
    assert_eq!((goal.g, goal.h, goal.f), (2, 0, 2));
    let mut fresh = AStar::new(3, 3);
    fresh.set_goal((1, 1));
    assert_eq!(fresh.get_goal(), Some((1, 1)));
    assert_eq!(fresh.get_node((0, 0)).unwrap().h, 0);
}

#[test]
fn empty_board_has_no_cells() {
    let mut search = AStar::new(0, 0);
    assert!(search.get_node((0, 0)).is_none());
    assert_eq!(search.find_path((0, 0), (0, 0)), Some(vec![(0, 0)]));
}

#[test]
fn fresh_search_goes_straight_to_a_goal_two_cells_to_the_right() {
    let mut search = AStar::new(5, 3);
    assert_eq!(search.find_path((1, 1), (3, 1)), Some(vec![(1, 1), (2, 1), (3, 1)]));
    assert_eq!(
        search.get_open_list(),
        &vec![(0, 0), (0, 1), (0, 2), (1, 0), (1, 2), (2, 0), (2, 2), (3, 0), (3, 2)]
    );
    assert_eq!(search.get_closed_list(), &vec![(1, 1), (2, 1)]);
    let mut search = AStar::new(28, 31);
    assert_eq!(search.find_path((1, 1), (3, 1)), Some(vec![(1, 1), (2, 1), (3, 1)]));
}

#[test]
fn of_two_open_cells_with_one_total_the_earlier_is_expanded() {
    let mut search = AStar::new(3, 3);
    search.find_path((0, 0), (2, 2));
    let first = search.get_node((2, 1)).unwrap().f;
    let second = search.get_node((1, 2)).unwrap().f;
    assert_eq!((first, second), (2, 2));
    assert_eq!(search.get_closed_list(), &vec![(0, 0), (2, 1), (1, 2)]);
}
