use nebula::checksum::{check_digest, sha256_hex, sum_entries, verify_sha256sums, SumEntry, SumsError};
use nebula::doc::{
    as_list, as_text, assign, copy, copy_at, get, is_null, number_field, parse_json, parse_yaml, text_field, Doc,
    Step,
};
use nebula::toml_doc::parse_toml;

#[test]
fn json_is_read() {
    let d = parse_json(br#"{"a":[1,"x",null,true,1.5]}"#).unwrap();
    let l = as_list(get(&d, "a").unwrap()).unwrap();
    assert!(matches!(&l[0], Doc::Num(n) if n == "1"));
    assert_eq!(as_text(&l[1]).as_deref(), Some("x"));
    assert!(is_null(&l[2]));
    assert!(matches!(l[3], Doc::Bool(true)));
    assert!(matches!(&l[4], Doc::Num(n) if n == "1.5"));
    assert!(parse_json(b"{").is_err());
}

#[test]
fn yaml_is_read() {
    let d = parse_yaml("a:\n  - b: 7\n    c: text\n1: one\n").unwrap();
    let item = &as_list(get(&d, "a").unwrap()).unwrap()[0];
    assert_eq!(number_field(item, "b"), Some(7));
    assert_eq!(text_field(item, "c").as_deref(), Some("text"));
    assert!(parse_yaml("a: [").is_err());
    assert!(matches!(parse_yaml("").unwrap(), Doc::Null));
}

#[test]
fn toml_is_read() {
    let d = parse_toml("n = 5\ns = \"x\"\nb = true\nl = [1, 2]\n[t]\nk = \"v\"\n").unwrap();
    assert_eq!(number_field(&d, "n"), Some(5));
    assert_eq!(text_field(&d, "s").as_deref(), Some("x"));
    assert_eq!(text_field(get(&d, "t").unwrap(), "k").as_deref(), Some("v"));
    assert_eq!(as_list(get(&d, "l").unwrap()).unwrap().len(), 2);
    assert!(parse_toml("n = ").is_err());
}

#[test]
fn one_member_changes_and_the_rest_stays() {
    let d = parse_json(br#"{"a":{"b":1,"c":2},"d":3}"#).unwrap();
    let path = vec![Step::Key("a".into()), Step::Key("b".into())];
    let d = assign(d, &path, Doc::Str("new".into())).unwrap();
    assert_eq!(text_field(get(&d, "a").unwrap(), "b").as_deref(), Some("new"));
    assert_eq!(number_field(get(&d, "a").unwrap(), "c"), Some(2));
    assert_eq!(number_field(&d, "d"), Some(3));
    assert!(matches!(copy_at(&d, &path), Doc::Str(s) if s == "new"));
    assert!(matches!(copy_at(&d, &vec![Step::Item(0)]), Doc::Null));
    assert_eq!(format!("{:?}", copy(&d)), format!("{d:?}"));
    assert!(assign(Doc::Bool(true), &path, Doc::Null).is_none());
}

#[test]
fn digests_are_sha256() {
    assert_eq!(
        sha256_hex(b"abc"),
        "ba7816bf8f01cfea414140de5dae2223b00361a396177a9cb410ff61f20015ad"
    );
    assert_eq!(
        sha256_hex(b""),
        "e3b0c44298fc1c149afbf4c8996fb92427ae41e4649b934ca495991b7852b855"
    );
}

#[test]
fn sums_are_verified() {
    let abc = "ba7816bf8f01cfea414140de5dae2223b00361a396177a9cb410ff61f20015ad";
    let sums = format!("{abc}  kernel\n{} *rootfs\n\n", sha256_hex(b"r"));
    let e = sum_entries(&sums);
    assert_eq!((e.len(), e[0].name.as_str()), (2, "kernel"));
    assert!(verify_sha256sums(&sums, &vec![b"abc".to_vec(), b"r".to_vec()]).is_ok());
    match verify_sha256sums(&sums, &vec![b"abd".to_vec(), b"r".to_vec()]) {
        Err(SumsError::Mismatch { name, expected, .. }) => {
            assert_eq!((name.as_str(), expected.as_str()), ("kernel", abc))
        }
        r => panic!("{r:?}"),
    }
    assert!(matches!(verify_sha256sums("", &vec![]), Err(SumsError::NoEntries)));
    let entry = SumEntry { expected: abc.into(), name: "k".into() };
    assert!(check_digest(&entry, abc).is_ok());
    assert!(check_digest(&entry, "0").is_err());
    assert!(SumsError::Missing { name: "k".into() }.message("SHA256SUMS").contains("k"));
}
