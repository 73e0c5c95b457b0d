use orbit_core::attach::{decide_attach, select_fallback, select_target, Attach};
use orbit_core::geometry::{
    filter_deadly_nodes, filter_hitting_nodes, get_cross_point, get_is_aligned, get_is_behind,
    get_is_clockwise, get_is_hitting, get_is_touching, world_to_screen_coords, AREA_WIDTH,
    HALF_WIDTH,
};
use orbit_core::node::{Color, Node};
use orbit_core::player::Player;
use orbit_core::vector::Vec2;

fn node(x: i64, y: i64, radius: u32) -> Node {
    Node { pos: Vec2 { x, y }, radius, color: Color::White }
}

fn heading(x: i64, y: i64) -> Player {
    let mut p = Player::new();
    p.facing = Vec2 { x, y };
    p
}

#[test]
fn cross_point_is_the_foot_of_the_perpendicular() {
    let p = Player::new();
    assert_eq!(get_cross_point(&p, &node(300_000, 1_500_000, 100_000)), Vec2 { x: 0, y: 1_500_000 });
    assert_eq!(get_cross_point(&p, &node(-700_000, -250_000, 100_000)), Vec2 { x: 0, y: -250_000 });
    assert_eq!(get_cross_point(&p, &node(0, 0, 100_000)), Vec2 { x: 0, y: 0 });
    let right = heading(1_000_000, 0);
    assert_eq!(get_cross_point(&right, &node(1_900_000, 500_000, 100_000)), Vec2 {
        x: 1_900_000,
        y: 0,
    });
    // heading (0.6, 0.8): the node (1, 0) projects to 0.6 along it
    let slanted = heading(600_000, 800_000);
    assert_eq!(get_cross_point(&slanted, &node(1_000_000, 0, 100_000)), Vec2 {
        x: 360_000,
        y: 480_000,
    });
}

#[test]
fn cross_point_from_a_player_away_from_the_origin() {
    let mut p = heading(0, -1_000_000);
    p.pos = Vec2 { x: 200_000, y: 3_000_000 };
    assert_eq!(get_cross_point(&p, &node(-400_000, 1_000_000, 100_000)), Vec2 {
        x: 200_000,
        y: 1_000_000,
    });
    assert!(!get_is_behind(&p, &node(-400_000, 1_000_000, 100_000)));
    assert!(get_is_behind(&p, &node(-400_000, 3_000_001, 100_000)));
}

#[test]
fn behind_means_a_negative_projection() {
    let p = Player::new();
    assert!(!get_is_behind(&p, &node(300_000, 1_500_000, 100_000)));
    assert!(get_is_behind(&p, &node(300_000, -1, 100_000)));
    assert!(!get_is_behind(&p, &node(300_000, 0, 100_000)));
    assert!(!get_is_behind(&p, &node(0, 0, 100_000)));
}

#[test]
fn clockwise_when_the_node_is_on_the_right() {
    let p = Player::new();
    assert!(get_is_clockwise(&p, &node(300_000, 1_500_000, 100_000)));
    assert!(!get_is_clockwise(&p, &node(-300_000, 1_500_000, 100_000)));
    assert!(get_is_clockwise(&p, &node(300_000, -1_500_000, 100_000)));
    // dead ahead counts as counter-clockwise
    assert!(!get_is_clockwise(&p, &node(0, 1_500_000, 100_000)));
    let down = heading(0, -1_000_000);
    assert!(!get_is_clockwise(&down, &node(300_000, 1_500_000, 100_000)));
}

#[test]
fn hitting_is_strictly_inside_the_contact_distance() {
    let p = Player::new();
    // contact distance 150_000
    assert!(get_is_hitting(&p, &node(149_999, 1_000_000, 100_000)));
    assert!(!get_is_hitting(&p, &node(150_000, 1_000_000, 100_000)));
    assert!(get_is_hitting(&p, &node(0, 1_000_000, 100_000)));
    assert!(!filter_hitting_nodes(&p, &node(-149_999, -1_000_000, 100_000)));
    assert!(filter_hitting_nodes(&p, &node(-150_000, -1_000_000, 100_000)));
}

#[test]
fn touching_is_strictly_inside_the_contact_distance() {
    let p = Player::new();
    assert!(get_is_touching(&p, &node(149_999, 0, 100_000)));
    assert!(!get_is_touching(&p, &node(150_000, 0, 100_000)));
    assert!(get_is_touching(&p, &node(0, 0, 1)));
    assert!(get_is_touching(&p, &node(90_000, -120_000, 100_001)));
    assert!(!get_is_touching(&p, &node(90_000, -120_000, 100_000)));
}

#[test]
fn aligned_means_a_cosine_of_nine_tenths() {
    let p = Player::new();
    assert!(get_is_aligned(&p, &node(300_000, 1_500_000, 100_000)));
    assert!(get_is_aligned(&p, &node(0, 1_500_000, 100_000)));
    // behind but on the line of flight
    assert!(get_is_aligned(&p, &node(-300_000, -1_500_000, 100_000)));
    assert!(!get_is_aligned(&p, &node(1_000_000, 1_000_000, 100_000)));
    assert!(!get_is_aligned(&p, &node(1_000_000, 0, 100_000)));
    // cos = 9 / sqrt(81 + 19) = 0.9 exactly
    let q = heading(0, 1_000_000);
    let mut on_edge = node(0, 0, 1);
    on_edge.pos = Vec2 { x: 4_358_899, y: 9_000_000 };
    // 4_358_899 squared is just above 19e12: the cosine is just below 0.9
    assert!(!get_is_aligned(&q, &on_edge));
    on_edge.pos = Vec2 { x: 4_358_898, y: 9_000_000 };
    assert!(get_is_aligned(&q, &on_edge));
}

#[test]
fn viable_needs_all_four_conditions() {
    let p = Player::new();
    let good = node(300_000, 1_500_000, 100_000);
    assert!(filter_deadly_nodes(&p, &good, HALF_WIDTH));
    // behind
    assert!(!filter_deadly_nodes(&p, &node(300_000, -1_500_000, 100_000), HALF_WIDTH));
    // hitting
    assert!(!filter_deadly_nodes(&p, &node(100_000, 1_500_000, 100_000), HALF_WIDTH));
    // far away: 2.0 is the limit, and it is allowed
    assert!(filter_deadly_nodes(&p, &node(1_200_000, 1_600_000, 100_000), HALF_WIDTH));
    assert!(!filter_deadly_nodes(&p, &node(1_200_000, 1_600_001, 100_000), HALF_WIDTH));
    // cross point outside the corridor
    let right = heading(1_000_000, 0);
    let beside = node(1_900_000, 500_000, 100_000);
    assert!(!filter_deadly_nodes(&right, &beside, HALF_WIDTH));
    assert!(filter_deadly_nodes(&right, &beside, 1_900_000));
    assert!(!filter_deadly_nodes(&right, &beside, 1_899_999));
}

#[test]
fn screen_coordinates() {
    let origin = Vec2 { x: 0, y: 0 };
    assert_eq!(world_to_screen_coords(480, 848, origin, origin), Vec2 { x: 240, y: 848 });
    assert_eq!(world_to_screen_coords(480, 848, Vec2 { x: 0, y: 5_000_000 }, origin), Vec2 {
        x: 240,
        y: 0,
    });
    assert_eq!(
        world_to_screen_coords(480, 848, Vec2 { x: AREA_WIDTH / 2, y: 2_500_000 }, origin),
        Vec2 { x: 480, y: 424 }
    );
    assert_eq!(
        world_to_screen_coords(480, 848, Vec2 { x: -AREA_WIDTH / 2, y: 1_000_000 }, origin),
        Vec2 { x: 0, y: 678 }
    );
    // a moved origin
    let moved = Vec2 { x: 500_000, y: 2_000_000 };
    assert_eq!(
        world_to_screen_coords(480, 848, Vec2 { x: 500_000, y: 3_000_000 }, moved),
        Vec2 { x: 240, y: 678 }
    );
    // another screen size
    assert_eq!(world_to_screen_coords(960, 1696, Vec2 { x: 0, y: 2_500_000 }, origin), Vec2 {
        x: 480,
        y: 848,
    });
}

#[test]
fn target_is_the_viable_node_with_the_nearest_cross_point() {
    let p = Player::new();
    let nodes = vec![
        node(500_000, 1_800_000, 100_000),
        node(500_000, -1_000_000, 100_000),
        node(-400_000, 1_000_000, 100_000),
        node(300_000, 1_500_000, 100_000),
        node(600_000, 1_000_000, 100_000),
        node(500_000, 3_000_000, 100_000),
    ];
    assert_eq!(select_target(&p, &nodes, HALF_WIDTH), Some(2));
    // the same state gives the same choice
    assert_eq!(select_target(&p, &nodes, HALF_WIDTH), Some(2));
    assert_eq!(decide_attach(&p, &nodes, HALF_WIDTH), Attach::Orbiting(nodes[2], false));
}

#[test]
fn target_ties_go_to_the_earlier_node() {
    let p = Player::new();
    let nodes = vec![
        node(600_000, 1_000_000, 100_000),
        node(-400_000, 1_000_000, 100_000),
        node(300_000, 1_000_000, 100_000),
    ];
    assert_eq!(select_target(&p, &nodes, HALF_WIDTH), Some(0));
    let reversed = vec![nodes[2], nodes[1], nodes[0]];
    assert_eq!(select_target(&p, &reversed, HALF_WIDTH), Some(0));
    assert_eq!(decide_attach(&p, &reversed, HALF_WIDTH), Attach::Orbiting(nodes[2], true));
}

#[test]
fn target_skips_nodes_that_are_not_viable() {
    let p = Player::new();
    let nodes = vec![
        // nearest cross point, but the flight would hit it
        node(100_000, 200_000, 100_000),
        // behind
        node(500_000, -100_000, 100_000),
        node(500_000, 900_000, 100_000),
        node(500_000, 800_000, 100_000),
    ];
    assert_eq!(select_target(&p, &nodes, HALF_WIDTH), Some(3));
    assert_eq!(select_target(&p, &Vec::new(), HALF_WIDTH), None);
    assert_eq!(select_target(&p, &vec![nodes[0], nodes[1]], HALF_WIDTH), None);
}

#[test]
fn unaligned_target_is_aimed_at() {
    let p = Player::new();
    let nodes = vec![node(1_000_000, 1_000_000, 100_000)];
    assert_eq!(decide_attach(&p, &nodes, HALF_WIDTH), Attach::Targeting(nodes[0], true));
    let left = vec![node(-1_000_000, 1_000_000, 100_000)];
    assert_eq!(decide_attach(&p, &left, HALF_WIDTH), Attach::Targeting(left[0], false));
}

#[test]
fn fallback_is_the_nearest_node_clear_of_the_flight() {
    let p = Player::new();
    let nodes = vec![
        // on the line of flight: excluded
        node(0, 500_000, 100_000),
        // behind, clear of the line
        node(900_000, -1_200_000, 100_000),
        node(-300_000, -400_000, 100_000),
        // too far to be viable, clear of the line
        node(1_000_000, 5_000_000, 100_000),
    ];
    assert_eq!(select_target(&p, &nodes, HALF_WIDTH), None);
    assert_eq!(select_fallback(&p, &nodes), Some(2));
    assert_eq!(decide_attach(&p, &nodes, HALF_WIDTH), Attach::Orbiting(nodes[2], false));
    // ties go to the earlier node
    let tied = vec![node(300_000, -400_000, 100_000), node(-300_000, -400_000, 100_000)];
    assert_eq!(select_fallback(&p, &tied), Some(0));
    assert_eq!(decide_attach(&p, &tied, HALF_WIDTH), Attach::Orbiting(tied[0], true));
}

#[test]
fn nothing_to_attach_to() {
    let p = Player::new();
    // dead ahead: the flight would hit the node, so neither choice takes it
    let ahead = vec![node(0, 1_500_000, 100_000)];
    assert_eq!(select_target(&p, &ahead, HALF_WIDTH), None);
    assert_eq!(select_fallback(&p, &ahead), None);
    assert_eq!(decide_attach(&p, &ahead, HALF_WIDTH), Attach::Detached);
    // a node under the player is never chosen
    let under = vec![node(0, 0, 100_000)];
    assert_eq!(decide_attach(&p, &under, HALF_WIDTH), Attach::Detached);
    assert_eq!(decide_attach(&p, &Vec::new(), HALF_WIDTH), Attach::Detached);
}
