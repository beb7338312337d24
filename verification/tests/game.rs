use learn_more_rust::guessing_game::{calc_score, get_prize, Game, Verdict};

#[test]
fn calc_score_uses_fibonacci() {
    let guesses_to_score_map: [u32; 21] = [
        0, 1, 2, 3, 4, 4, 5, 5, 5, 6, 6, 6, 6, 6, 7, 7, 7, 7, 7, 7, 7,
    ];
    let mut guess_count = 1;
    for expected_score in guesses_to_score_map.iter() {
        let actual_score = calc_score(guess_count);
        assert_eq!(
            *expected_score, actual_score,
            "guess_count = {}",
            guess_count
        );
        guess_count += 1;
    }
}

#[test]
fn calc_score_of_the_largest_count() {
    assert_eq!(calc_score(u32::MAX), 47);
}

#[test]
fn prizes_follow_the_score() {
    assert_eq!(get_prize(0).name(), "Ferrari");
    assert_eq!(get_prize(1).name(), "Mercedes");
    assert_eq!(get_prize(2).name(), "Mustang");
    assert_eq!(get_prize(3).name(), "Sedan");
    assert_eq!(get_prize(4).name(), "Pickup Truck");
    assert_eq!(get_prize(5).name(), "Go Kart");
    assert_eq!(get_prize(u32::MAX).name(), "Go Kart");
}

#[test]
fn guesses_are_judged_and_counted() {
    let mut game = Game::with_secret(17);
    assert_eq!(game.guess(3), Verdict::Less);
    assert!(!game.done);
    assert_eq!(game.guess(40), Verdict::Greater);
    assert!(!game.done);
    assert_eq!(game.guess(17), Verdict::Equal);
    assert!(game.done);
    assert_eq!(game.guess_count, 3);
    assert_eq!(calc_score(game.guess_count), 2);
}

#[test]
fn verdicts_in_words() {
    assert_eq!(Verdict::Less.phrase(), "less than");
    assert_eq!(Verdict::Greater.phrase(), "greater than");
    assert_eq!(Verdict::Equal.phrase(), "equal to");
}

#[test]
fn secrets_are_drawn_from_the_range() {
    for _ in 0..200 {
        let game = Game::start(1, 50);
        assert!(1 <= game.secret && game.secret <= 50);
        assert_eq!(game.guess_count, 0);
        assert!(!game.done);
    }
    assert_eq!(Game::start(7, 7).secret, 7);
    let mut seen = [false; 4];
    for _ in 0..400 {
        seen[Game::start(10, 13).secret as usize - 10] = true;
    }
    assert_eq!(seen, [true; 4]);
}

#[test]
fn lines_that_write_a_number_are_guesses() {
    let mut game = Game::with_secret(17);
    assert_eq!(game.guess_line("3\n"), Some((3, Verdict::Less)));
    assert_eq!(game.guess_line("  40  \r\n"), Some((40, Verdict::Greater)));
    assert_eq!(game.guess_line("seventeen\n"), None);
    assert_eq!(game.guess_line("\n"), None);
    assert_eq!(game.guess_line("-17\n"), None);
    assert_eq!(game.guess_line("1 7\n"), None);
    assert_eq!(game.guess_line("4294967296\n"), None);
    assert_eq!(game.guess_line("+\n"), None);
    assert_eq!(game.guess_count, 2);
    assert!(!game.done);
    assert_eq!(game.guess_line("4294967295\n"), Some((4294967295, Verdict::Greater)));
    assert_eq!(game.guess_line("+017\n"), Some((17, Verdict::Equal)));
    assert_eq!(game.guess_count, 4);
    assert!(game.done);
}
