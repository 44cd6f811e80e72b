use battleship::game::{End, Game, Ledger, Ship, Slot, HEIGHT, WIDTH};
use battleship::slot::{Dir, Overlay, Ship as DragShip, ShipType};

fn snapshot_player(g: &Game) -> Vec<Slot> {
    let mut v = Vec::new();
    for y in 0..HEIGHT {
        for x in 0..WIDTH {
            v.push(g.player_at(x, y));
        }
    }
    v
}

fn snapshot_bot(g: &Game) -> Vec<Slot> {
    let mut v = Vec::new();
    for y in 0..HEIGHT {
        for x in 0..WIDTH {
            v.push(g.bot_at(x, y));
        }
    }
    v
}

fn is_unshot(s: Slot) -> bool {
    matches!(s, Slot::Empty | Slot::Ship(_))
}

fn started_game() -> Game {
    let mut g = Game::new();
    let mut ledger = Ledger::new();
    g.random(&mut ledger);
    assert!(ledger.all_placed());
    g.play();
    g
}

fn cells_of_kind(g: &Game, kind: Ship) -> Vec<(usize, usize)> {
    let mut v = Vec::new();
    for y in 0..HEIGHT {
        for x in 0..WIDTH {
            if g.player_at(x, y) == Slot::Ship(kind) {
                v.push((x, y));
            }
        }
    }
    v
}

#[test]
fn phases_one_way() {
    let mut g = Game::new();
    assert!(g.is_placing());
    assert!(!g.is_playing());
    g.play();
    assert!(!g.is_placing());
    assert!(g.is_playing());
}

#[test]
fn ledger_marks_and_gate() {
    let mut l = Ledger::new();
    assert!(!l.all_placed());
    assert!(!l.is_placed(Ship::Destroyer));
    l.mark(Ship::Destroyer);
    assert!(l.is_placed(Ship::Destroyer));
    assert!(!l.is_placed(Ship::Carrier));
    assert!(!l.all_placed());
    l.mark(Ship::PatrolBoat);
    l.mark(Ship::Submarine);
    l.mark(Ship::Battleship);
    l.mark(Ship::Carrier);
    assert!(l.all_placed());
}

#[test]
fn random_fleet_whole_and_disjoint() {
    for _ in 0..20 {
        let mut g = Game::new();
        let mut ledger = Ledger::new();
        g.random(&mut ledger);
        assert!(ledger.all_placed());
        let kinds = [
            Ship::PatrolBoat,
            Ship::Submarine,
            Ship::Destroyer,
            Ship::Battleship,
            Ship::Carrier,
        ];
        let mut total = 0;
        for kind in kinds {
            let cells = cells_of_kind(&g, kind);
            assert_eq!(cells.len(), kind.len());
            // Collinear and contiguous: one coordinate fixed, the other
            // a run of consecutive values (the scan yields sorted cells).
            let horizontal = cells.iter().all(|&(_, y)| y == cells[0].1);
            let vertical = cells.iter().all(|&(x, _)| x == cells[0].0);
            assert!(horizontal || vertical);
            for (i, &(x, y)) in cells.iter().enumerate() {
                if horizontal {
                    assert_eq!(x, cells[0].0 + i);
                } else {
                    assert_eq!(y, cells[0].1 + i);
                }
            }
            total += cells.len();
        }
        // No overlap: every ship cell was counted exactly once, and no
        // cell carries a shot mark after placement.
        assert_eq!(total, 17);
        for y in 0..HEIGHT {
            for x in 0..WIDTH {
                assert!(is_unshot(g.player_at(x, y)));
            }
        }
    }
}

#[test]
fn out_of_bounds_shot_is_error_and_changes_nothing() {
    let mut g = started_game();
    let player_before = snapshot_player(&g);
    let bot_before = snapshot_bot(&g);
    assert_eq!(g.hit(WIDTH, 0), End::Error);
    assert_eq!(g.hit(0, HEIGHT), End::Error);
    assert_eq!(snapshot_player(&g), player_before);
    assert_eq!(snapshot_bot(&g), bot_before);
}

#[test]
fn already_shot_cell_is_error_without_counter_shot() {
    let mut g = started_game();
    let first = g.hit(0, 0);
    assert_ne!(first, End::Error);
    assert_ne!(first, End::Win);
    assert_ne!(first, End::Lose);
    let player_before = snapshot_player(&g);
    let bot_before = snapshot_bot(&g);
    assert_eq!(g.hit(0, 0), End::Error);
    assert_eq!(snapshot_player(&g), player_before);
    assert_eq!(snapshot_bot(&g), bot_before);
}

#[test]
fn valid_shot_marks_target_and_one_counter_shot() {
    let mut g = started_game();
    let player_before = snapshot_player(&g);
    let bot_before = snapshot_bot(&g);
    let idx = 3 * WIDTH + 7;
    let r = g.hit(7, 3);
    assert_eq!(r, End::Continue);
    // The targeted opponent cell took the shot, and only that cell.
    let bot_after = snapshot_bot(&g);
    for (i, (&b, &a)) in bot_before.iter().zip(bot_after.iter()).enumerate() {
        if i == idx {
            match b {
                Slot::Empty => assert_eq!(a, Slot::EmptyShot),
                Slot::Ship(k) => assert_eq!(a, Slot::Hit(k)),
                _ => panic!("fresh cell was already shot"),
            }
        } else {
            assert_eq!(a, b);
        }
    }
    // Exactly one player cell moved from unshot to shot.
    let player_after = snapshot_player(&g);
    let mut changed = 0;
    for (&b, &a) in player_before.iter().zip(player_after.iter()) {
        if a != b {
            changed += 1;
            assert!(is_unshot(b));
            match b {
                Slot::Empty => assert_eq!(a, Slot::EmptyShot),
                Slot::Ship(k) => assert_eq!(a, Slot::Hit(k)),
                _ => unreachable!(),
            }
        }
    }
    assert_eq!(changed, 1);
}

#[test]
fn winning_shot_fires_no_counter_shot() {
    let mut saw_win = false;
    for _ in 0..50 {
        let mut g = started_game();
        let mut outcome = None;
        'sweep: for y in 0..HEIGHT {
            for x in 0..WIDTH {
                let player_before = snapshot_player(&g);
                match g.hit(x, y) {
                    End::Win => {
                        // The player board is untouched by a winning shot.
                        assert_eq!(snapshot_player(&g), player_before);
                        outcome = Some(End::Win);
                        break 'sweep;
                    }
                    End::Lose => {
                        outcome = Some(End::Lose);
                        break 'sweep;
                    }
                    End::Continue => {}
                    End::Error => panic!("sweep shot a fresh cell"),
                }
            }
        }
        match outcome {
            Some(End::Win) => {
                saw_win = true;
                break;
            }
            Some(End::Lose) => {}
            _ => panic!("a full sweep must end the game"),
        }
    }
    assert!(saw_win);
}

#[test]
fn losing_or_continuing_shot_takes_one_player_cell() {
    // Play whole games; after every Continue or Lose exactly one player
    // cell moved from unshot to shot.
    let mut g = started_game();
    'sweep: for y in 0..HEIGHT {
        for x in 0..WIDTH {
            let player_before = snapshot_player(&g);
            match g.hit(x, y) {
                End::Win => break 'sweep,
                End::Error => panic!("sweep shot a fresh cell"),
                End::Continue | End::Lose => {
                    let player_after = snapshot_player(&g);
                    let mut changed = 0;
                    for (&b, &a) in player_before.iter().zip(player_after.iter()) {
                        if a != b {
                            changed += 1;
                            assert!(is_unshot(b));
                            assert!(!is_unshot(a));
                        }
                    }
                    assert_eq!(changed, 1);
                }
            }
        }
    }
}

#[test]
fn drag_ship_types_carry_their_data() {
    assert_eq!(ShipType::PatrolBoat.id(), 1);
    assert_eq!(ShipType::Submarine.id(), 2);
    assert_eq!(ShipType::Destroyer.id(), 3);
    assert_eq!(ShipType::Battleship.id(), 4);
    assert_eq!(ShipType::Carrier.id(), 5);
    assert_eq!(ShipType::PatrolBoat.len(), 2);
    assert_eq!(ShipType::Submarine.len(), 3);
    assert_eq!(ShipType::Destroyer.len(), 3);
    assert_eq!(ShipType::Battleship.len(), 4);
    assert_eq!(ShipType::Carrier.len(), 5);
    let s = DragShip { placed: false, x: 3, y: 1, dir: Dir::Vertical, type_: ShipType::Carrier };
    assert_eq!(s, s);
    assert_ne!(s.dir, Dir::Horizontal);
    assert_eq!(Overlay { id: 2 }, Overlay { id: 2 });
}
