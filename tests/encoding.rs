use makemore::batch::make_batches;
use makemore::corpus::{encode_corpus, encode_tokens, slide_window, split_tokens, EncodeError};
use makemore::vocab::{is_symbol_char, itos, stoi};

#[test]
fn symbol_codes_round_trip() {
    assert_eq!(stoi('.'), 0);
    assert_eq!(stoi('a'), 1);
    assert_eq!(stoi('z'), 26);
    assert_eq!(itos(0), '.');
    assert_eq!(itos(1), 'a');
    assert_eq!(itos(26), 'z');
    for i in 0..27u32 {
        assert_eq!(stoi(itos(i)), i);
    }
    assert!(is_symbol_char('q'));
    assert!(!is_symbol_char('A'));
    assert!(!is_symbol_char('{'));
}

#[test]
fn bigram_pairs_of_ab() {
    let (xs, ys) = encode_corpus("ab\n", 1).unwrap();
    assert_eq!(xs, vec![0, 1, 2]);
    assert_eq!(ys, vec![1, 2, 0]);
}

#[test]
fn trigram_pairs_of_ab() {
    let (xs, ys) = encode_corpus("ab", 3).unwrap();
    assert_eq!(xs, vec![0, 0, 0, 0, 0, 1, 0, 1, 2]);
    assert_eq!(ys, vec![1, 2, 0]);
}

#[test]
fn pair_count_is_length_plus_one() {
    for (word, len) in [("emma", 4usize), ("a", 1), ("olivia", 6)] {
        for width in [1usize, 3, 8] {
            let (xs, ys) = encode_corpus(word, width).unwrap();
            assert_eq!(ys.len(), len + 1);
            assert_eq!(xs.len(), (len + 1) * width);
        }
    }
}

#[test]
fn trigram_pairs_of_emma() {
    let (xs, ys) = encode_corpus("emma", 3).unwrap();
    assert_eq!(
        xs,
        vec![0, 0, 0, 0, 0, 5, 0, 5, 13, 5, 13, 13, 13, 13, 1]
    );
    assert_eq!(ys, vec![5, 13, 13, 1, 0]);
}

#[test]
fn blank_lines_are_skipped_and_crlf_accepted() {
    let (xs, ys) = encode_corpus("ab\r\n\n\nc\n\n", 1).unwrap();
    assert_eq!(xs, vec![0, 1, 2, 0, 3]);
    assert_eq!(ys, vec![1, 2, 0, 3, 0]);
}

#[test]
fn empty_corpus_gives_no_pairs() {
    let (xs, ys) = encode_corpus("", 3).unwrap();
    assert!(xs.is_empty());
    assert!(ys.is_empty());
    let (xs, ys) = encode_corpus("\n\n", 3).unwrap();
    assert!(xs.is_empty());
    assert!(ys.is_empty());
}

#[test]
fn encoding_twice_gives_the_same_pairs() {
    let text = "emma\nolivia\nava\n";
    let first = encode_corpus(text, 3).unwrap();
    let second = encode_corpus(text, 3).unwrap();
    assert_eq!(first, second);
}

#[test]
fn unknown_symbol_reports_the_token() {
    match encode_corpus("ab\nBob\nz9\n", 1) {
        Err(EncodeError::UnknownSymbol { token }) => assert_eq!(token, b"Bob".to_vec()),
        Ok(_) => panic!("expected an error"),
    }
    assert!(encode_corpus("caf\u{e9}", 3).is_err());
}

#[test]
fn split_tokens_keeps_order() {
    let toks = split_tokens(b"x\n\ny\r\nzz");
    assert_eq!(toks, vec![b"x".to_vec(), b"y".to_vec(), b"zz".to_vec()]);
}

#[test]
fn encode_tokens_concatenates_words() {
    let toks = vec![b"a".to_vec(), b"b".to_vec()];
    let (xs, ys) = encode_tokens(&toks, 2).unwrap();
    assert_eq!(xs, vec![0, 0, 0, 1, 0, 0, 0, 2]);
    assert_eq!(ys, vec![1, 0, 2, 0]);
}

#[test]
fn window_slides_by_one() {
    assert_eq!(slide_window(&vec![0, 1, 2], 7), vec![1, 2, 7]);
    assert_eq!(slide_window(&vec![4], 9), vec![9]);
    assert_eq!(slide_window(&vec![], 9), Vec::<u32>::new());
}

#[test]
fn batches_cut_targets_and_contexts() {
    let ys: Vec<u32> = (0..7).collect();
    let xs: Vec<u32> = (100..121).collect();
    let batches = make_batches(&xs, &ys, 3);
    assert_eq!(batches.len(), 2);
    assert_eq!(batches[0].1, vec![0, 1, 2]);
    assert_eq!(batches[0].0, (100..109).collect::<Vec<u32>>());
    assert_eq!(batches[1].1, vec![3, 4, 5]);
    assert_eq!(batches[1].0, (109..118).collect::<Vec<u32>>());
    assert!(make_batches(&xs, &ys, 8).is_empty());
}
