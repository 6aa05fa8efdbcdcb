use findpython::version::{PreKind, PreRelease, Version};
use std::cmp::Ordering;

fn v(s: &str) -> Version {
    Version::from_output(s).unwrap()
}

#[test]
fn versions_are_read_from_probe_output() {
    let x = v("3.11.2\n");
    assert_eq!(x.epoch, 0);
    assert_eq!(x.release, vec![3, 11, 2]);
    assert_eq!(x.pre, None);
    let y = v("3.13.0rc1");
    assert_eq!(y.pre, Some(PreRelease { kind: PreKind::Rc, number: 1 }));
    let z = v("1!2.0.post3.dev4");
    assert_eq!(z.epoch, 1);
    assert_eq!(z.post, Some(3));
    assert_eq!(z.dev, Some(4));
    assert!(Version::from_output("three").is_none());
    assert!(Version::from_output("").is_none());
}

#[test]
fn ordering_follows_pep440() {
    let order = [
        "1.0.dev456", "1.0a1", "1.0a2.dev456", "1.0a12.dev456", "1.0a12", "1.0b1.dev456",
        "1.0b2", "1.0b2.post345.dev456", "1.0b2.post345", "1.0rc1", "1.0", "1.0.post456.dev34",
        "1.0.post456", "1.1", "1!0.5",
    ];
    for i in 0..order.len() {
        for j in 0..order.len() {
            let expected = i.cmp(&j);
            assert_eq!(v(order[i]).compare(&v(order[j])), expected, "{} {}", order[i], order[j]);
        }
    }
}

#[test]
fn trailing_zeros_do_not_count() {
    assert_eq!(v("3.11").compare(&v("3.11.0")), Ordering::Equal);
    assert_eq!(v("3.11").compare(&v("3.11.1")), Ordering::Less);
    assert_eq!(v("3.9").compare(&v("3.10")), Ordering::Less);
}

#[test]
fn final_release_ranks_above_prerelease() {
    assert_eq!(v("3.12.0").compare(&v("3.12.0a1")), Ordering::Greater);
    assert_eq!(v("3.12.0").compare(&v("3.12.0.dev1")), Ordering::Greater);
    assert_eq!(v("3.12.0").compare(&v("3.12.0rc9")), Ordering::Greater);
}

#[test]
fn version_text_is_normalized() {
    assert_eq!(v("3.11.2").to_string(), "3.11.2");
    assert_eq!(v("1!2.0rc1.post2.dev3").to_string(), "1!2.0rc1.post2.dev3");
    assert_eq!(v("3.9.0a1").to_string(), "3.9.0a1");
    assert_eq!(v("10.0.120").to_string(), "10.0.120");
    assert!(v("3.9.0a1").is_pre());
    assert!(!v("3.9.0a1").is_dev());
}
