use corpora_store::corpora::Corpus;
use corpora_store::errors::ErrorKind;

#[test]
fn from_name_parses_each_corpus() {
    assert!(matches!(Corpus::from_name("bible"), Ok(Corpus::Bible)));
    assert!(matches!(Corpus::from_name("talmud"), Ok(Corpus::Talmud)));
    assert!(matches!(Corpus::from_name("josephus"), Ok(Corpus::Josephus)));
    assert!(matches!(Corpus::from_name("enoch"), Ok(Corpus::Enoch)));
    assert!(matches!(Corpus::from_name("apocrypha"), Ok(Corpus::Apocrypha)));
}

#[test]
fn from_name_ignores_ascii_case() {
    assert!(matches!(Corpus::from_name("Bible"), Ok(Corpus::Bible)));
    assert!(matches!(Corpus::from_name("TALMUD"), Ok(Corpus::Talmud)));
    assert!(matches!(Corpus::from_name("JoSePhUs"), Ok(Corpus::Josephus)));
    assert!(matches!(Corpus::from_name("Apocrypha"), Ok(Corpus::Apocrypha)));
}

#[test]
fn from_name_unknown_corpus_is_a_parse_error() {
    let r = Corpus::from_name("gospel_of_thomas");
    match r {
        Ok(_) => panic!("an unknown corpus name must not map to a corpus"),
        Err(e) => {
            assert_eq!(e.kind, ErrorKind::ParseError);
            assert_eq!(e.msg, "unable to decipher corpus gospel_of_thomas");
        }
    }
}

#[test]
fn from_name_rejects_near_misses() {
    assert!(Corpus::from_name("bibles").is_err());
    assert!(Corpus::from_name("").is_err());
    assert!(Corpus::from_name(" bible").is_err());
}
