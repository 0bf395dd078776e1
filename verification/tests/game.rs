use guessing_game::game::{continue_loop, Game, Reply};

#[test]
fn secret_fifty_scenario() {
    let mut game = Game::with_secret(50);

    let r1 = game.step("10".as_bytes());
    assert_eq!(r1, Reply::TooSmall { guess: 10, advise: false });
    assert_eq!(r1.message(), "Too small!");
    assert_eq!(game.fails, 1);

    let r2 = game.step("90".as_bytes());
    assert_eq!(r2, Reply::TooBig { guess: 90, advise: false });
    assert_eq!(r2.message(), "Too big!");
    assert_eq!(game.fails, 2);

    let r3 = game.step("50".as_bytes());
    assert_eq!(r3, Reply::Win { guess: 50 });
    assert_eq!(r3.message(), "You win!");
    assert_eq!(game.fails, 2);
    assert_eq!(game.secret, 50);
}

#[test]
fn non_numeric_input_is_harmless() {
    let mut game = Game::with_secret(50);
    let r = game.step("abc".as_bytes());
    assert_eq!(r, Reply::ParseError);
    assert_eq!(
        r.message(),
        "An error has occurred. Most likely, you did not input a number."
    );
    assert_eq!(game.fails, 0);

    game.step("99".as_bytes());
    assert_eq!(game.fails, 1);
    let r2 = game.step("".as_bytes());
    assert_eq!(r2, Reply::ParseError);
    assert_eq!(game.fails, 1);
}

#[test]
fn advisory_once_counter_exceeds_five() {
    let mut game = Game::with_secret(50);
    for k in 1..=5 {
        let r = game.step("0".as_bytes());
        assert_eq!(r, Reply::TooSmall { guess: 0, advise: false });
        assert_eq!(game.fails, k);
    }
    let r6 = game.step("100".as_bytes());
    assert_eq!(r6, Reply::TooBig { guess: 100, advise: true });
    assert_eq!(game.fails, 6);
    let r7 = game.step("1".as_bytes());
    assert_eq!(r7, Reply::TooSmall { guess: 1, advise: true });
    let win = game.step("50".as_bytes());
    assert_eq!(win, Reply::Win { guess: 50 });
    assert_eq!(game.fails, 7);
}

#[test]
fn continue_loop_counts_and_advises() {
    let mut fails: i32 = 0;
    assert!(!continue_loop(&mut fails));
    assert_eq!(fails, 1);
    fails = 4;
    assert!(!continue_loop(&mut fails));
    assert_eq!(fails, 5);
    assert!(continue_loop(&mut fails));
    assert_eq!(fails, 6);
    assert!(continue_loop(&mut fails));
    assert_eq!(fails, 7);
}

#[test]
fn new_game_secret_in_range() {
    for _ in 0..200 {
        let game = Game::new_game();
        assert!(0 <= game.secret && game.secret <= 100);
        assert_eq!(game.fails, 0);
    }
}

#[test]
fn every_secret_can_be_won() {
    for secret in 0..=100 {
        let mut game = Game::with_secret(secret);
        let line = format!("{}", secret);
        let r = game.step(line.as_bytes());
        assert_eq!(r, Reply::Win { guess: secret });
        assert_eq!(game.fails, 0);
    }
}

#[test]
fn guesses_out_of_i32_range_miss() {
    let mut game = Game::with_secret(0);
    let r = game.step("2147483648".as_bytes());
    assert_eq!(r, Reply::ParseError);
    assert_eq!(game.fails, 0);
}
