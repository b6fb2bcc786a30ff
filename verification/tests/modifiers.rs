use city_info::modifiers::{
    get_random_garbler, perform_garbles, AnyGarbler, Garbler, GoodListener, Message, PairSwapper,
    TemporalDisplacer, ThirdRemover,
};

#[test]
fn test_remove_third() {
    let mut rt = ThirdRemover;

    let msg = Message::default();

    assert_eq!(rt.garble(msg).render(), String::from("!"));

    let msg = Message::from_text("one two three");

    assert_eq!(rt.garble(msg).render(), String::from("one two !"));

    let msg = Message::from_text("un deux trois quatre cinq six");

    assert_eq!(
        rt.garble(msg).render(),
        String::from("un deux quatre cinq !")
    );
}

#[test]
fn test_pair_swapper() {
    let mut ps = PairSwapper;

    let msg = Message::default();

    assert_eq!(ps.garble(msg).render(), String::from("!"));

    let msg = Message::from_text("one two three");

    assert_eq!(ps.garble(msg).render(), String::from("two one three !"));

    let msg = Message::from_text("un deux trois quatre cinq six");

    assert_eq!(
        ps.garble(msg).render(),
        String::from("deux un quatre trois six cinq !")
    );
}

#[test]
fn test_temporal_displacer() {
    let mut td = TemporalDisplacer::default();

    let msg = Message::default();

    // empty messages don't have a fifth word, append Wumpus
    assert_eq!(td.garble(msg).render(), String::from("Wumpus !"));

    let msg = Message::from_text("one two three");

    // this message didn't have a fifth word, append Wumpus
    assert_eq!(
        td.garble(msg).render(),
        String::from("one two three Wumpus !")
    );

    let msg = Message::from_text("un deux trois quatre cinq six");

    // this message has a fifth word, replace Wumpus
    assert_eq!(
        td.garble(msg).render(),
        String::from("un deux trois quatre Wumpus six !")
    );

    let msg = Message::from_text("uno dos tres cuatro cinco seis");

    // "cinq" was the fifth word of the last message, insert it
    assert_eq!(
        td.garble(msg).render(),
        String::from("uno dos tres cuatro cinq seis !")
    );

    let msg = Message::from_text("eins zwei drei vier funf");

    // "cinco" was the fifth word of the last message, insert it
    assert_eq!(
        td.garble(msg).render(),
        String::from("eins zwei drei vier cinco !")
    );

    let msg = Message::from_text("uno due tre quattro");

    // this message doesn't have a fifth word, append Wumpus
    assert_eq!(
        td.garble(msg).render(),
        String::from("uno due tre quattro Wumpus !")
    );
}

#[test]
fn good_listener_passes_message_on() {
    let mut gl = GoodListener;
    let msg = Message::from_text("hello there world");
    assert_eq!(gl.garble(msg).render(), String::from("hello there world !"));
}

#[test]
fn from_text_collapses_whitespace() {
    assert_eq!(Message::from_text("").render(), String::from("!"));
    assert_eq!(Message::from_text("   ").render(), String::from("!"));
    assert_eq!(
        Message::from_text("  one \t two\nthree  ").render(),
        String::from("one two three !")
    );
    assert_eq!(Message::from_text("solo").render(), String::from("solo !"));
}

#[test]
fn message_words_are_kept_in_order() {
    let msg = Message::from_text("a b c");
    let words = msg.words();
    assert_eq!(words.len(), 3);
    assert_eq!(words[0], "a");
    assert_eq!(words[1], "b");
    assert_eq!(words[2], "c");
}

#[test]
fn perform_garbles_applies_each_garbler_in_turn() {
    let msg = Message::from_text("one two three");
    let garblers = vec![
        AnyGarbler::Pairs(PairSwapper),
        AnyGarbler::Third(ThirdRemover),
    ];
    // pair swap: "two one three", then remove the third word: "two one"
    assert_eq!(
        perform_garbles(msg, garblers).render(),
        String::from("two one !")
    );

    let msg = Message::from_text("one two three");
    assert_eq!(
        perform_garbles(msg, Vec::new()).render(),
        String::from("one two three !")
    );

    // A displacer on the line: the fifth word becomes "Wumpus", then the
    // pairs are swapped.
    let msg = Message::from_text("one two three four five six");
    let garblers = vec![
        AnyGarbler::Temporal(TemporalDisplacer::default()),
        AnyGarbler::Pairs(PairSwapper),
    ];
    assert_eq!(
        perform_garbles(msg, garblers).render(),
        String::from("two one four three six Wumpus !")
    );
}

#[test]
fn from_words_keeps_the_words_as_given() {
    let msg = Message::from_words(vec![String::from("left"), String::from("right")]);
    assert_eq!(msg.render(), String::from("left right !"));
}

#[test]
fn random_garbler_is_one_of_the_memoryless_ones() {
    let mut g = get_random_garbler();
    assert!(matches!(
        g,
        AnyGarbler::Listener(_) | AnyGarbler::Third(_) | AnyGarbler::Pairs(_)
    ));
    let out = g.garble(Message::from_text("a b c")).render();
    let expected = [
        String::from("a b c !"),  // the good listener
        String::from("a b !"),    // the third remover
        String::from("b a c !"),  // the pair swapper
    ];
    assert!(expected.contains(&out));
}
