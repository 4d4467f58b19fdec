use twixelbox_bot::Cube;
use twixelbox_bot::canvas::Canvas;

#[test]
fn test_place_and_get() {
    let mut canvas = Canvas::new(500);
    canvas.place(Cube {
        position: (10, 10, 10),
        colour: (255, 0, 0),
    });
    assert_eq!(canvas.get(10, 10, 10), Some((255, 0, 0)));
    assert_eq!(canvas.get(10, 10, 11), None);
    assert_eq!(canvas.len(), 1);
}

#[test]
fn test_last_writer_wins() {
    let mut canvas = Canvas::new(500);
    canvas.place(Cube {
        position: (1, 2, 3),
        colour: (255, 0, 0),
    });
    canvas.place(Cube {
        position: (1, 2, 3),
        colour: (0, 0, 255),
    });
    assert_eq!(canvas.get(1, 2, 3), Some((0, 0, 255)));
    assert_eq!(canvas.len(), 1);
}

#[test]
fn test_load_all_replays_in_order() {
    let events = vec![
        Cube {
            position: (0, 0, 0),
            colour: (1, 1, 1),
        },
        Cube {
            position: (4, 4, 4),
            colour: (2, 2, 2),
        },
        Cube {
            position: (0, 0, 0),
            colour: (3, 3, 3),
        },
    ];
    let mut canvas = Canvas::new(10);
    canvas.load_all(&events);
    // The duplicate coordinate ends at the colour of its last event.
    assert_eq!(canvas.get(0, 0, 0), Some((3, 3, 3)));
    assert_eq!(canvas.get(4, 4, 4), Some((2, 2, 2)));
    assert_eq!(canvas.len(), 2);
}

#[test]
fn test_load_all_idempotent() {
    let events = vec![
        Cube {
            position: (1, 1, 1),
            colour: (9, 9, 9),
        },
        Cube {
            position: (2, 2, 2),
            colour: (8, 8, 8),
        },
        Cube {
            position: (1, 1, 1),
            colour: (7, 7, 7),
        },
    ];
    let mut once = Canvas::new(10);
    once.load_all(&events);
    let mut twice = Canvas::new(10);
    twice.load_all(&events);
    twice.load_all(&events);
    assert_eq!(once.len(), twice.len());
    for x in 0..10u32 {
        for y in 0..10u32 {
            for z in 0..10u32 {
                assert_eq!(once.get(x, y, z), twice.get(x, y, z));
            }
        }
    }
}

#[test]
fn test_snapshot_lists_every_cube() {
    let mut canvas = Canvas::new(10);
    canvas.place(Cube {
        position: (1, 1, 1),
        colour: (10, 20, 30),
    });
    canvas.place(Cube {
        position: (2, 2, 2),
        colour: (40, 50, 60),
    });
    canvas.place(Cube {
        position: (1, 1, 1),
        colour: (70, 80, 90),
    });
    let snap = canvas.snapshot();
    assert_eq!(snap.len(), 2);
    assert!(snap.contains(&Cube {
        position: (1, 1, 1),
        colour: (70, 80, 90),
    }));
    assert!(snap.contains(&Cube {
        position: (2, 2, 2),
        colour: (40, 50, 60),
    }));
}
