use openwarrant::atomic::{prestate_check, record_of, temp_name, Prestate};

#[test]
fn stray_names_the_record() {
    let temp = temp_name("authorization.toml", 4242, 0x1f, 3);
    assert_eq!(temp, ".authorization.toml.4242.0000001f3.war-tmp");
    assert_eq!(record_of(&temp).as_deref(), Some("authorization.toml"));
    assert_eq!(record_of(".not-ours.war-tmp"), None);
    assert_eq!(record_of(".a.b.c"), None);
    assert_eq!(record_of(".x.12.zz.war-tmp"), None);
    assert_eq!(record_of(".x.1a.ff.war-tmp"), None);
    assert_eq!(record_of(".a.b.tar.gz.7.ABC.war-tmp").as_deref(), Some("a.b.tar.gz"));
}

#[test]
fn a_moved_prestate_is_refused_and_described() {
    let a = Prestate::of(b"abc");
    let b = Prestate::of(b"abd");
    assert_eq!(prestate_check("x.toml", &a, &Prestate::of(b"abc")), None);
    assert_eq!(prestate_check("x.toml", &Prestate::Absent, &Prestate::Absent), None);
    let m = prestate_check("x.toml", &a, &b).unwrap();
    assert!(m.starts_with("x.toml changed after it was read (read as sha256:ba7816bf8f01cfea, now sha256:"), "{m}");
    assert_eq!(Prestate::Absent.describe(), "absent");
    let m2 = prestate_check("y", &Prestate::Absent, &a).unwrap();
    assert!(m2.contains("(read as absent, now sha256:ba7816bf8f01cfea)"));
}
