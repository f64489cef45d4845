use remores_dl::jaro::jaro_fraction;

fn frac(a: &str, b: &str) -> (u128, u128) {
    let av: Vec<char> = a.chars().collect();
    let bv: Vec<char> = b.chars().collect();
    jaro_fraction(&av, &bv)
}

fn close_to_strsim(a: &str, b: &str) {
    let (n, d) = frac(a, b);
    let ours = n as f64 / d as f64;
    let theirs = strsim::jaro(a, b);
    assert!(
        (ours - theirs).abs() < 1e-9,
        "jaro({:?}, {:?}): {} vs {}",
        a,
        b,
        ours,
        theirs
    );
}

#[test]
fn identical_names_score_one() {
    let (n, d) = frac("Anna Svensson", "Anna Svensson");
    assert_eq!(n, d);
}

#[test]
fn both_empty_score_one() {
    assert_eq!(frac("", ""), (1, 1));
}

#[test]
fn one_empty_scores_zero() {
    assert_eq!(frac("", "abc"), (0, 1));
    assert_eq!(frac("abc", ""), (0, 1));
}

#[test]
fn disjoint_names_score_zero() {
    assert_eq!(frac("abc", "xyz").0, 0);
}

#[test]
fn exact_value_single_transposition() {
    // "martha" vs "marhta": m = 6, t = 1:
    // (6/6 + 6/6 + 5/6) / 3 = 17/18
    let (n, d) = frac("martha", "marhta");
    assert_eq!(n * 18, d * 17);
}

#[test]
fn agrees_with_the_floating_point_reference() {
    close_to_strsim("Anna Svensson", "Anna Svenson");
    close_to_strsim("martha", "marhta");
    close_to_strsim("Friedrich Nietzsche", "Jean-Paul Sartre");
    close_to_strsim("dwayne", "duane");
    close_to_strsim("dixon", "dicksonx");
    close_to_strsim("a", "ab");
    close_to_strsim("åsa öberg", "asa oberg");
}

#[test]
fn threshold_is_strict() {
    // "abcd" vs "abcx": m = 3, t = 0: (3/4 + 3/4 + 1)/3 = 5/6 > 4/5
    let (n, d) = frac("abcd", "abcx");
    assert_eq!(n * 6, d * 5);
    assert!(5 * n > 4 * d);
}
