use hangman_rs::cpu::HangmanCPU;
use hangman_rs::game::{GuessPhase, HangmanGame, InputAction, KeyInput};

fn start(word: &str) -> (HangmanCPU, HangmanGame) {
    let cpu = HangmanCPU::with_word(String::from(word));
    let game = HangmanGame::new(cpu.get_word_len());
    (cpu, game)
}

#[test]
fn cat_walkthrough() {
    let (cpu, mut game) = start("cat");
    assert_eq!(cpu.respond_to_guess('c'), vec![0]);
    game.handle_guess('c', &cpu);
    assert_eq!(game.revealed_word(), &vec![Some('c'), None, None]);
    assert!(game.misses().is_empty());
    assert!(cpu.respond_to_guess('z').is_empty());
    game.handle_guess('z', &cpu);
    assert_eq!(game.misses(), &vec!['z']);
    assert_eq!(cpu.respond_to_guess('a'), vec![1]);
    game.handle_guess('a', &cpu);
    assert_eq!(game.revealed_word(), &vec![Some('c'), Some('a'), None]);
    assert!(!game.has_won());
    assert_eq!(cpu.respond_to_guess('t'), vec![2]);
    game.handle_guess('t', &cpu);
    assert_eq!(game.revealed_word(), &vec![Some('c'), Some('a'), Some('t')]);
    assert!(game.has_won());
}

#[test]
fn go_after_a_miss() {
    let (cpu, mut game) = start("go");
    game.handle_guess('x', &cpu);
    assert_eq!(game.misses(), &vec!['x']);
    assert!(!game.has_won());
    game.handle_guess('g', &cpu);
    assert!(!game.has_won());
    game.handle_guess('o', &cpu);
    assert!(game.has_won());
}

#[test]
fn single_letter_word_won_by_one_guess() {
    let (cpu, mut game) = start("a");
    assert!(!game.has_won());
    game.handle_guess('a', &cpu);
    assert!(game.has_won());
    assert!(game.misses().is_empty());
}

#[test]
fn fresh_game_is_not_won() {
    let game = HangmanGame::new(4);
    assert_eq!(game.revealed_word(), &vec![None, None, None, None]);
    assert!(game.misses().is_empty());
    assert!(!game.has_won());
}

#[test]
fn hit_reveals_every_position() {
    let (cpu, mut game) = start("banana");
    game.handle_guess('a', &cpu);
    assert_eq!(
        game.revealed_word(),
        &vec![None, Some('a'), None, Some('a'), None, Some('a')]
    );
}

#[test]
fn repeated_hit_changes_nothing() {
    let (cpu, mut game) = start("banana");
    game.handle_guess('n', &cpu);
    let once = game.revealed_word().clone();
    game.handle_guess('n', &cpu);
    assert_eq!(game.revealed_word(), &once);
    assert!(game.misses().is_empty());
}

#[test]
fn misses_never_show_in_the_word() {
    let (cpu, mut game) = start("hello");
    for c in ['x', 'l', 'q', 'h', 'e', 'z', 'o'] {
        game.handle_guess(c, &cpu);
    }
    assert_eq!(game.misses(), &vec!['x', 'q', 'z']);
    for m in game.misses() {
        assert!(!game.revealed_word().contains(&Some(*m)));
    }
    assert!(game.has_won());
}

#[test]
fn rendered_text() {
    let (cpu, mut game) = start("cat");
    assert_eq!(game.placeholder_text(), vec!['-', '-', '-']);
    assert_eq!(game.revealed_text(), vec![' ', ' ', ' ']);
    game.handle_guess('a', &cpu);
    game.handle_guess('q', &cpu);
    game.handle_guess('r', &cpu);
    assert_eq!(game.revealed_text(), vec![' ', 'a', ' ']);
    assert_eq!(game.misses_text(), vec!['q', ' ', 'r', ' ']);
}

#[test]
fn letter_then_enter_confirms() {
    let game = HangmanGame::new(3);
    let (p, a) = game.next_input(GuessPhase::Idle, KeyInput::Char('k'));
    assert_eq!(p, GuessPhase::Composing('k'));
    assert_eq!(a, InputAction::ShowPending('k'));
    let (p, a) = game.next_input(p, KeyInput::Enter);
    assert_eq!(p, GuessPhase::Idle);
    assert_eq!(a, InputAction::Confirm('k'));
}

#[test]
fn later_letter_replaces_pending_guess() {
    let game = HangmanGame::new(3);
    let (p, _) = game.next_input(GuessPhase::Idle, KeyInput::Char('k'));
    let (p, a) = game.next_input(p, KeyInput::Char('m'));
    assert_eq!(p, GuessPhase::Composing('m'));
    assert_eq!(a, InputAction::ShowPending('m'));
}

#[test]
fn enter_without_pending_guess_is_ignored() {
    let game = HangmanGame::new(3);
    let (p, a) = game.next_input(GuessPhase::Idle, KeyInput::Enter);
    assert_eq!(p, GuessPhase::Idle);
    assert_eq!(a, InputAction::Ignore);
}

#[test]
fn non_letters_are_ignored() {
    let game = HangmanGame::new(3);
    for c in ['1', ' ', '#'] {
        let (p, a) = game.next_input(GuessPhase::Idle, KeyInput::Char(c));
        assert_eq!(p, GuessPhase::Idle);
        assert_eq!(a, InputAction::Ignore);
    }
    let (p, a) = game.next_input(GuessPhase::Composing('b'), KeyInput::Other);
    assert_eq!(p, GuessPhase::Composing('b'));
    assert_eq!(a, InputAction::Ignore);
}

#[test]
fn missed_letter_cannot_be_guessed_again() {
    let (cpu, mut game) = start("cat");
    game.handle_guess('z', &cpu);
    let (p, a) = game.next_input(GuessPhase::Idle, KeyInput::Char('z'));
    assert_eq!(p, GuessPhase::Idle);
    assert_eq!(a, InputAction::Ignore);
    assert!(game.is_miss('z'));
    assert!(!game.is_miss('c'));
}

#[test]
fn quit_key_quits_in_any_phase() {
    let game = HangmanGame::new(2);
    assert_eq!(game.next_input(GuessPhase::Idle, KeyInput::Quit).1, InputAction::Quit);
    assert_eq!(
        game.next_input(GuessPhase::Composing('a'), KeyInput::Quit).1,
        InputAction::Quit
    );
}

#[test]
fn classified_step_follows_the_given_class() {
    let game = HangmanGame::new(2);
    let (p, a) = game.next_input_classified(GuessPhase::Idle, KeyInput::Char('7'), true);
    assert_eq!(p, GuessPhase::Composing('7'));
    assert_eq!(a, InputAction::ShowPending('7'));
    let (p, a) = game.next_input_classified(GuessPhase::Idle, KeyInput::Char('a'), false);
    assert_eq!(p, GuessPhase::Idle);
    assert_eq!(a, InputAction::Ignore);
}
