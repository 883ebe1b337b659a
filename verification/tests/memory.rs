use merle::json::read;
use merle::memory::{
    first_vector, is_made, is_opened, memory_dir_name, record_fix, similar_fixes, Hit, COLLECTION,
    RECALL_LIMIT,
};

fn hit(fields: &str, similarity: f32) -> Hit {
    Hit { fields: read(fields).unwrap(), similarity: similarity.to_bits() }
}

#[test]
fn fix_is_recorded() {
    let record = record_fix("left: 1\nright: 2", "-a\n+b\n", Some(1_700_000_000_000_000_001));
    assert_eq!(record.id, "1700000000000000001");
    assert_eq!(record.fields["bug_desc"], "left: 1\nright: 2");
    assert_eq!(record.fields["diff"], "-a\n+b\n");
    assert_eq!(record.fields.as_object().unwrap().len(), 2);
}

#[test]
fn clock_before_the_epoch_gives_zero() {
    assert_eq!(record_fix("b", "d", None).id, "0");
    assert_eq!(record_fix("b", "d", Some(0)).id, "0");
}

#[test]
fn recorded_fix_comes_back() {
    let fields = record_fix("bug", "the diff", Some(5)).fields;
    let hits = vec![Hit { fields, similarity: 0.75f32.to_bits() }];
    let fixes = similar_fixes(&hits);
    assert_eq!(fixes.len(), 1);
    assert_eq!(fixes[0].diff, "the diff");
    assert_eq!(f32::from_bits(fixes[0].similarity), 0.75);
}

#[test]
fn junk_is_not_brought_up() {
    let hits = vec![
        hit("{\"diff\":\"a\"}", 0.9),
        hit("{\"diff\":\"b\"}", 0.49999997),
        hit("{\"bug_desc\":\"no diff\"}", 0.9),
        hit("{\"diff\":7}", 0.9),
        hit("null", 0.9),
        hit("{\"diff\":\"c\"}", 0.5),
    ];
    let fixes = similar_fixes(&hits);
    let diffs: Vec<&str> = fixes.iter().map(|f| f.diff.as_str()).collect();
    assert_eq!(diffs, ["a", "c"]);
    assert!(similar_fixes(&Vec::new()).is_empty());
}

#[test]
fn patterns_are_compared_as_numbers() {
    let numbers = [
        0.0,
        -0.0,
        0.25,
        0.49999997,
        0.5,
        0.50000006,
        1.0,
        2.0,
        -0.5,
        -1.0,
        f32::MAX,
        f32::MIN,
        f32::INFINITY,
        f32::NEG_INFINITY,
        f32::NAN,
        -f32::NAN,
        f32::MIN_POSITIVE,
    ];
    for number in numbers {
        let fixes = similar_fixes(&vec![hit("{\"diff\":\"d\"}", number)]);
        assert_eq!(fixes.len() == 1, number >= 0.5, "{number}");
    }
    // Every power of two and its neighbours, of either sign.
    for exponent in 0u32..512 {
        for low in [0u32, 1, 0x7f_ffff] {
            let number = f32::from_bits(exponent << 23 | low);
            let fixes = similar_fixes(&vec![hit("{\"diff\":\"d\"}", number)]);
            assert_eq!(fixes.len() == 1, number >= 0.5, "{number}");
        }
    }
}

#[test]
fn first_vector_is_taken() {
    assert_eq!(first_vector(vec![1, 2]), Ok(1));
    assert_eq!(first_vector::<u8>(Vec::new()), Err("embedder returned no vector".to_string()));
}

#[test]
fn directory_is_named_by_the_digest() {
    assert_eq!(memory_dir_name(0), "0000000000000000");
    assert_eq!(memory_dir_name(0xabc), "0000000000000abc");
    assert_eq!(memory_dir_name(u64::MAX), "ffffffffffffffff");
    assert_ne!(memory_dir_name(1), memory_dir_name(16));
}

#[test]
fn lookup_makes_nothing() {
    assert!(!is_opened(false, false));
    assert!(is_opened(false, true));
    assert!(is_opened(true, false));
    assert!(is_opened(true, true));
    assert!(!is_made(false, false));
    assert!(!is_made(false, true));
    assert!(is_made(true, false));
    assert!(!is_made(true, true));
    assert_eq!(COLLECTION, "fixes");
    assert_eq!(RECALL_LIMIT, 3);
}
