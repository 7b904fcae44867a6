use rust_of_life::game::command::Command;
use rust_of_life::game::engine::Engine;

#[test]
fn engine_constructor() {
    let e = Engine::new();
    assert!(e.board().is_none());
}

#[test]
fn engine_board() {
    let e = Engine::new();
    let b = e.board();
    assert!(b.is_none());
}

#[test]
fn engine_cmd_new() {
    let mut e = Engine::new();
    assert!(e.process_command(Command::New { width: 10, height: 10 } ).is_ok());

    let b = e.board();
    assert!(b.is_some());
    let b = e.board().unwrap();
    assert_eq!(b.width, 10);
    assert_eq!(b.height, 10);

    assert!(e.process_command(Command::New { width: 30, height: 20 } ).is_ok());
    let b = e.board().unwrap();
    assert_eq!(b.width, 30);
    assert_eq!(b.height, 20);
}

#[test]
fn engine_cmd_quit() {
    let mut e = Engine::new();
    assert!(e.process_command(Command::Quit).is_ok());

    assert!(e.process_command(Command::New { width: 10, height: 10 } ).is_ok());
    assert!(e.process_command(Command::Quit).is_ok());

    assert!(e.board().is_none());
}

#[test]
fn engine_toggle() {
    let mut e = Engine::new();
    assert!(e.toggle(3, 7).is_err());
    assert_eq!(e.toggle(3, 7).err().unwrap(), "Game not created yet");

    assert!(e.process_command(Command::New { width: 10, height: 10 } ).is_ok());
    let b = e.board().unwrap();
    assert_eq!(b.get(2, 6).ok().unwrap(), false);
    assert!(e.toggle(3, 7).is_ok());
    let b = e.board().unwrap();
    assert_eq!(b.get(2, 6).ok().unwrap(), true);

    assert!(e.toggle(0, 0).is_err());
    assert!(e.toggle(1, 0).is_err());
    assert!(e.toggle(0, 1).is_err());
    assert!(e.toggle(11, 1).is_err());
    assert!(e.toggle(11, 11).is_err());
    assert!(e.toggle(1, 11).is_err());
    assert_eq!(e.toggle(0, 0).err().unwrap(), "Index out of bounds");
}

#[test]
fn engine_cmd_toggle() {
    let mut e = Engine::new();
    assert!(e.process_command(Command::Toggle { x: 3, y: 7 } ).is_err());
    assert_eq!(e.process_command(Command::Toggle { x: 3, y: 7 } ).err().unwrap(), "Game not created yet");

    assert!(e.process_command(Command::New { width: 10, height: 10 } ).is_ok());
    let b = e.board().unwrap();
    assert_eq!(b.get(2, 6).ok().unwrap(), false);
    assert!(e.process_command(Command::Toggle { x: 3, y: 7 } ).is_ok());
    let b = e.board().unwrap();
    assert_eq!(b.get(2, 6).ok().unwrap(), true);
}

#[test]
fn engine_cmd_play() {
    let mut e = Engine::new();
    assert!(e.process_command(Command::Play).is_err());
    assert_eq!(e.process_command(Command::Play).err().unwrap(), "Game not created yet");

    assert!(e.process_command(Command::New { width: 10, height: 10 } ).is_ok());
    assert!(e.process_command(Command::Play).is_ok());
}

#[test]
fn engine_cmd_step() {
    let mut e = Engine::new();
    assert!(e.process_command(Command::Step).is_err());
    assert_eq!(e.process_command(Command::Step).err().unwrap(), "Game not created yet");

    assert!(e.process_command(Command::New { width: 10, height: 10 } ).is_ok());
    assert!(e.process_command(Command::Step).is_ok());
}

#[test]
fn engine_play() {
    let mut e = Engine::new();
    assert!(e.play().is_err());
    assert_eq!(e.play().err().unwrap(), "Game not created yet");

    assert!(e.process_command(Command::New { width: 6, height: 6 } ).is_ok());
    assert!(e.play().is_ok());
    let b = e.board().unwrap();

    let expected = "______\n\
                    ______\n\
                    ______\n\
                    ______\n\
                    ______\n\
                    ______\n";

    assert_eq!(b.render(), expected);
}

#[test]
fn engine_play_starve_underpopulation() {
    let mut e = Engine::new();

    assert!(e.process_command(Command::New { width: 3, height: 3 } ).is_ok());

    // starve 0 neighbours
    assert!(e.toggle(1, 1).is_ok());
    assert!(e.play().is_ok());

    let b = e.board().unwrap();
    assert_eq!(b.get(0,0).unwrap(), false);

    // starve 1 neighbour
    assert!(e.toggle(1, 1).is_ok());
    assert!(e.toggle(2, 1).is_ok());
    assert!(e.play().is_ok());

    let b = e.board().unwrap();
    assert_eq!(b.get(0,0).unwrap(), false);
}

#[test]
fn engine_play_survive() {
    let mut e = Engine::new();

    // survive 2 neighbours
    assert!(e.process_command(Command::New { width: 3, height: 3 } ).is_ok());
    assert!(e.toggle(1, 1).is_ok());
    assert!(e.toggle(2, 1).is_ok());
    assert!(e.toggle(3, 1).is_ok());
    assert!(e.play().is_ok());

    let b = e.board().unwrap();
    assert_eq!(b.get(1,0).unwrap(), true);

    // survive 3 neighbours
    assert!(e.process_command(Command::New { width: 3, height: 3 } ).is_ok());
    assert!(e.toggle(1, 1).is_ok());
    assert!(e.toggle(2, 1).is_ok());
    assert!(e.toggle(3, 1).is_ok());
    assert!(e.toggle(2, 2).is_ok());
    assert!(e.play().is_ok());

    let b = e.board().unwrap();
    assert_eq!(b.get(1,1).unwrap(), true);
}

#[test]
fn engine_play_starve_overpopulation() {
    let mut e = Engine::new();

    // starve 4 neighbours
    assert!(e.process_command(Command::New { width: 3, height: 3 } ).is_ok());
    assert!(e.toggle(1, 1).is_ok());
    assert!(e.toggle(2, 1).is_ok());
    assert!(e.toggle(3, 1).is_ok());
    assert!(e.toggle(1, 2).is_ok());
    assert!(e.toggle(2, 2).is_ok());
    assert!(e.play().is_ok());

    let b = e.board().unwrap();
    assert_eq!(b.get(1,0).unwrap(), false);

    // starve 5 neighbours
    assert!(e.process_command(Command::New { width: 3, height: 3 } ).is_ok());
    assert!(e.toggle(1, 1).is_ok());
    assert!(e.toggle(2, 1).is_ok());
    assert!(e.toggle(3, 1).is_ok());
    assert!(e.toggle(1, 2).is_ok());
    assert!(e.toggle(2, 2).is_ok());
    assert!(e.toggle(3, 2).is_ok());
    assert!(e.play().is_ok());

    let b = e.board().unwrap();
    assert_eq!(b.get(1,0).unwrap(), false);

    // starve 6 neighbours
    assert!(e.process_command(Command::New { width: 3, height: 3 } ).is_ok());
    assert!(e.toggle(1, 1).is_ok());
    assert!(e.toggle(2, 1).is_ok());
    assert!(e.toggle(3, 1).is_ok());
    assert!(e.toggle(1, 2).is_ok());
    assert!(e.toggle(2, 2).is_ok());
    assert!(e.toggle(3, 2).is_ok());
    assert!(e.toggle(1, 3).is_ok());
    assert!(e.play().is_ok());

    let b = e.board().unwrap();
    assert_eq!(b.get(1,0).unwrap(), false);

    // starve 7 neighbours
    assert!(e.process_command(Command::New { width: 3, height: 3 } ).is_ok());
    assert!(e.toggle(1, 1).is_ok());
    assert!(e.toggle(2, 1).is_ok());
    assert!(e.toggle(3, 1).is_ok());
    assert!(e.toggle(1, 2).is_ok());
    assert!(e.toggle(2, 2).is_ok());
    assert!(e.toggle(3, 2).is_ok());
    assert!(e.toggle(1, 3).is_ok());
    assert!(e.toggle(2, 3).is_ok());
    assert!(e.play().is_ok());

    let b = e.board().unwrap();
    assert_eq!(b.get(1,0).unwrap(), false);

    // starve 8 neighbours
    assert!(e.process_command(Command::New { width: 3, height: 3 } ).is_ok());
    assert!(e.toggle(1, 1).is_ok());
    assert!(e.toggle(2, 1).is_ok());
    assert!(e.toggle(3, 1).is_ok());
    assert!(e.toggle(1, 2).is_ok());
    assert!(e.toggle(2, 2).is_ok());
    assert!(e.toggle(3, 2).is_ok());
    assert!(e.toggle(1, 3).is_ok());
    assert!(e.toggle(2, 3).is_ok());
    assert!(e.toggle(3, 3).is_ok());
    assert!(e.play().is_ok());

    let b = e.board().unwrap();
    assert_eq!(b.get(1,0).unwrap(), false);
}

#[test]
fn engine_play_born() {
    let mut e = Engine::new();

    // 1 neighbour no born
    assert!(e.process_command(Command::New { width: 3, height: 3 } ).is_ok());
    assert!(e.toggle(1, 1).is_ok());
    assert!(e.play().is_ok());

    let b = e.board().unwrap();
    assert_eq!(b.get(1,1).unwrap(), false);

    // 2 neighbours no born
    assert!(e.process_command(Command::New { width: 3, height: 3 } ).is_ok());
    assert!(e.toggle(1, 1).is_ok());
    assert!(e.toggle(2, 1).is_ok());
    assert!(e.play().is_ok());

    let b = e.board().unwrap();
    assert_eq!(b.get(1,1).unwrap(), false);

    // 3 neighbours new born!
    assert!(e.process_command(Command::New { width: 3, height: 3 } ).is_ok());
    assert!(e.toggle(1, 1).is_ok());
    assert!(e.toggle(2, 1).is_ok());
    assert!(e.toggle(3, 1).is_ok());
    assert!(e.play().is_ok());

    let b = e.board().unwrap();
    assert_eq!(b.get(1,1).unwrap(), true);

    // 4 neighbours no born
    assert!(e.process_command(Command::New { width: 3, height: 3 } ).is_ok());
    assert!(e.toggle(1, 1).is_ok());
    assert!(e.toggle(2, 1).is_ok());
    assert!(e.toggle(3, 1).is_ok());
    assert!(e.toggle(1, 2).is_ok());
    assert!(e.play().is_ok());

    let b = e.board().unwrap();
    assert_eq!(b.get(1,1).unwrap(), false);

    // 5 neighbours no born
    assert!(e.process_command(Command::New { width: 3, height: 3 } ).is_ok());
    assert!(e.toggle(1, 1).is_ok());
    assert!(e.toggle(2, 1).is_ok());
    assert!(e.toggle(3, 1).is_ok());
    assert!(e.toggle(1, 2).is_ok());
    assert!(e.toggle(3, 2).is_ok());
    assert!(e.play().is_ok());

    let b = e.board().unwrap();
    assert_eq!(b.get(1,1).unwrap(), false);

    // 6 neighbours no born
    assert!(e.process_command(Command::New { width: 3, height: 3 } ).is_ok());
    assert!(e.toggle(1, 1).is_ok());
    assert!(e.toggle(2, 1).is_ok());
    assert!(e.toggle(3, 1).is_ok());
    assert!(e.toggle(1, 2).is_ok());
    assert!(e.toggle(3, 2).is_ok());
    assert!(e.toggle(1, 3).is_ok());
    assert!(e.play().is_ok());

    let b = e.board().unwrap();
    assert_eq!(b.get(1,1).unwrap(), false);

    // 7 neighbours no born
    assert!(e.process_command(Command::New { width: 3, height: 3 } ).is_ok());
    assert!(e.toggle(1, 1).is_ok());
    assert!(e.toggle(2, 1).is_ok());
    assert!(e.toggle(3, 1).is_ok());
    assert!(e.toggle(1, 2).is_ok());
    assert!(e.toggle(3, 2).is_ok());
    assert!(e.toggle(1, 3).is_ok());
    assert!(e.toggle(2, 3).is_ok());
    assert!(e.play().is_ok());

    let b = e.board().unwrap();
    assert_eq!(b.get(1,1).unwrap(), false);

    // 8 neighbours no born
    assert!(e.process_command(Command::New { width: 3, height: 3 } ).is_ok());
    assert!(e.toggle(1, 1).is_ok());
    assert!(e.toggle(2, 1).is_ok());
    assert!(e.toggle(3, 1).is_ok());
    assert!(e.toggle(1, 2).is_ok());
    assert!(e.toggle(3, 2).is_ok());
    assert!(e.toggle(1, 3).is_ok());
    assert!(e.toggle(2, 3).is_ok());
    assert!(e.toggle(3, 3).is_ok());
    assert!(e.play().is_ok());

    let b = e.board().unwrap();
    assert_eq!(b.get(1,1).unwrap(), false);
}

#[test]
fn engine_play_blinker() {
    let mut e = Engine::new();

    assert!(e.process_command(Command::New { width: 3, height: 3 } ).is_ok());
    assert!(e.toggle(1, 2).is_ok());
    assert!(e.toggle(2, 2).is_ok());
    assert!(e.toggle(3, 2).is_ok());

    let expected_1 = "_X_\n\
                      _X_\n\
                      _X_\n";
    let expected_2 = "___\n\
                      XXX\n\
                      ___\n";

    assert!(e.play().is_ok());
    let b = e.board().unwrap();
    assert_eq!(b.render(), expected_1);

    assert!(e.play().is_ok());
    let b = e.board().unwrap();
    assert_eq!(b.render(), expected_2);
}

#[test]
fn engine_play_block() {
    let mut e = Engine::new();

    assert!(e.process_command(Command::New { width: 4, height: 4 } ).is_ok());
    assert!(e.toggle(2, 2).is_ok());
    assert!(e.toggle(2, 3).is_ok());
    assert!(e.toggle(3, 2).is_ok());
    assert!(e.toggle(3, 3).is_ok());

    let expected = "____\n\
                    _XX_\n\
                    _XX_\n\
                    ____\n";

    assert!(e.play().is_ok());
    let b = e.board().unwrap();
    assert_eq!(b.render(), expected);

    assert!(e.play().is_ok());
    let b = e.board().unwrap();
    assert_eq!(b.render(), expected);
}

#[test]
fn toggle_before_and_after_new() {
    let mut e = Engine::new();
    assert_eq!(e.process_command(Command::Toggle { x: 1, y: 1 }), Err("Game not created yet"));
    assert!(e.process_command(Command::New { width: 10, height: 10 }).is_ok());
    assert_eq!(e.process_command(Command::Toggle { x: 0, y: 5 }), Err("Index out of bounds"));
    assert_eq!(e.process_command(Command::Toggle { x: 11, y: 5 }), Err("Index out of bounds"));
    assert_eq!(e.process_command(Command::Toggle { x: 5, y: 0 }), Err("Index out of bounds"));
    assert_eq!(e.process_command(Command::Toggle { x: 5, y: 11 }), Err("Index out of bounds"));
    for x in 1..=10 {
        for y in 1..=10 {
            assert!(e.process_command(Command::Toggle { x, y }).is_ok());
        }
    }
    let b = e.board().unwrap();
    assert_eq!(b.render(), "XXXXXXXXXX\n".repeat(10));
}

#[test]
fn lone_cell_dies() {
    let mut e = Engine::new();
    assert!(e.process_command(Command::New { width: 3, height: 3 }).is_ok());
    assert!(e.process_command(Command::Toggle { x: 1, y: 1 }).is_ok());
    assert!(e.process_command(Command::Step).is_ok());
    assert_eq!(e.board().unwrap().render(), "___\n___\n___\n");
}

#[test]
fn blinker_on_larger_board() {
    let mut e = Engine::new();
    assert!(e.process_command(Command::New { width: 6, height: 6 }).is_ok());
    assert!(e.process_command(Command::Toggle { x: 1, y: 2 }).is_ok());
    assert!(e.process_command(Command::Toggle { x: 2, y: 2 }).is_ok());
    assert!(e.process_command(Command::Toggle { x: 3, y: 2 }).is_ok());
    let start = e.board().unwrap().render();
    assert_eq!(start, "______\nXXX___\n______\n______\n______\n______\n");
    assert!(e.process_command(Command::Step).is_ok());
    assert_eq!(
        e.board().unwrap().render(),
        "_X____\n_X____\n_X____\n______\n______\n______\n"
    );
    assert!(e.process_command(Command::Step).is_ok());
    assert_eq!(e.board().unwrap().render(), start);
}

#[test]
fn block_stays_for_many_steps() {
    let mut e = Engine::new();
    assert!(e.process_command(Command::New { width: 5, height: 4 }).is_ok());
    for (x, y) in [(4, 3), (5, 3), (4, 4), (5, 4)] {
        assert!(e.process_command(Command::Toggle { x, y }).is_ok());
    }
    let expected = "_____\n_____\n___XX\n___XX\n";
    for _ in 0..10 {
        assert!(e.process_command(Command::Play).is_ok());
        assert_eq!(e.board().unwrap().render(), expected);
    }
}

#[test]
fn quit_discards_and_new_replaces() {
    let mut e = Engine::new();
    assert!(e.process_command(Command::New { width: 2, height: 2 }).is_ok());
    assert!(e.process_command(Command::Toggle { x: 2, y: 2 }).is_ok());
    assert!(e.process_command(Command::New { width: 3, height: 1 }).is_ok());
    let b = e.board().unwrap();
    assert_eq!(b.render(), "___\n");
    assert_eq!((b.width(), b.height()), (3, 1));
    assert!(e.process_command(Command::Quit).is_ok());
    assert!(e.board().is_none());
    assert_eq!(e.process_command(Command::Step), Err("Game not created yet"));
    assert_eq!(e.process_command(Command::Play), Err("Game not created yet"));
    assert!(e.board().is_none());
}

#[test]
fn board_view_is_a_copy() {
    let mut e = Engine::new();
    assert!(e.process_command(Command::New { width: 2, height: 1 }).is_ok());
    let mut outside = e.board().unwrap();
    assert!(outside.toggle(0, 0).is_ok());
    assert_eq!(e.board().unwrap().render(), "__\n");
}
