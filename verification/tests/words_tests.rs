use minimatch::difference::find_difference;
use minimatch::unique::UniqueWords;
use minimatch::word_iter::WordIterator;

#[test]
fn main() {
    let first_sentence = String::from("I hate the surf and the sand.");
    let second_sentence = String::from("I love the surf and the sand.");

    let first_only = {
        let third_sentence = String::from("I love the snow and the sand.");
        let diff = find_difference(&first_sentence, &third_sentence);
        diff.first_only
    };

    assert_eq!(first_only, vec!["hate", "surf"]);

    let second_only = {
        let third_sentence = String::from("I love the snow and the sand.");
        let diff = find_difference(&third_sentence, &second_sentence);
        diff.second_only
    };

    assert_eq!(second_only, vec!["surf"]);
}

#[test]
fn identical_sentences_have_no_difference() {
    let sentence = String::from("same words here");
    let diff = find_difference(&sentence, &sentence);
    assert_eq!(diff.first_only, Vec::<&str>::new());
    assert_eq!(diff.second_only, Vec::<&str>::new());
}

#[test]
fn empty_sentences_have_no_difference() {
    let a = String::from("");
    let b = String::from("");
    let diff = find_difference(&a, &b);
    assert_eq!(diff.first_only, Vec::<&str>::new());
    assert_eq!(diff.second_only, Vec::<&str>::new());
}

#[test]
fn repeated_words_count_once() {
    let a = String::from("a a b b c");
    let b = String::from("c c");
    let diff = find_difference(&a, &b);
    assert_eq!(diff.first_only, vec!["a", "b"]);
    assert_eq!(diff.second_only, Vec::<&str>::new());
}

#[test]
fn word_iterator_walks_every_word() {
    let text = String::from("Twas brillig, and the slithy toves ");
    let mut word_iterator = WordIterator::new(&text);
    let mut words_vector = vec![];
    while let Some(word) = word_iterator.next_word() {
        words_vector.push(word);
    }
    assert_eq!(words_vector, vec!["Twas", "brillig,", "and", "the", "slithy", "toves"]);
}

#[test]
fn word_iterator_yields_the_final_unclosed_word() {
    let text = String::from("one two");
    let mut it = WordIterator::new(&text);
    assert_eq!(it.next_word(), Some("one"));
    assert_eq!(it.next_word(), Some("two"));
}

#[test]
fn word_iterator_sees_empty_words_between_spaces() {
    let text = String::from("a  b ");
    let mut it = WordIterator::new(&text);
    assert_eq!(it.next_word(), Some("a"));
    assert_eq!(it.next_word(), Some(""));
    assert_eq!(it.next_word(), Some("b"));
    assert_eq!(it.next_word(), None);
}

#[test]
fn unique_words_sorts_and_deduplicates() {
    let words = UniqueWords::new("the hound and the fox liked the son of the fox");
    let sorted_words = words.get_sorted_words();
    assert_eq!(sorted_words, vec!["and", "fox", "hound", "liked", "of", "son", "the"]);
}

#[test]
fn unique_words_orders_by_character_value() {
    let words = UniqueWords::new("b a 💪");
    let sorted_words = words.get_sorted_words();
    assert_eq!(sorted_words, vec!["a", "b", "💪"]);
}
