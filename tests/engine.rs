use fuzip::distance::key_distance;
use fuzip::fuzip::{Fuzip, FuzipMissing, FuzipPath, Fuzippable};
use fuzip::sequencer::Fuzip2Iterator;
use fuzip::two::{fits_limits, fuzzy_zip_two, try_fuzzy_zip_two};

fn paths(names: &[&str]) -> Vec<FuzipPath> {
    names
        .iter()
        .map(|n| FuzipPath::new(format!("dir/{n}.txt"), n.as_bytes().to_vec()))
        .collect()
}

fn stem(p: &FuzipPath) -> String {
    String::from_utf8(p.key().to_vec()).unwrap()
}

/// Drains the iterator into (left stem, right stem) pairs.
fn drain(mut it: Fuzip2Iterator<'_, FuzipPath>) -> Vec<(Option<String>, Option<String>)> {
    let mut out = Vec::new();
    while let Some(rec) = it.next() {
        assert_eq!(rec.width(), 2);
        let left = rec.get(0).ok().map(|p| stem(p));
        let right = rec.get(1).ok().map(|p| stem(p));
        out.push((left, right));
    }
    out
}

fn zip(lefts: &[&str], rights: &[&str]) -> Vec<(Option<String>, Option<String>)> {
    let l = paths(lefts);
    let r = paths(rights);
    drain(fuzzy_zip_two(&l, &r))
}

fn s(x: &str) -> Option<String> {
    Some(x.to_string())
}

fn dist(a: &str, b: &str) -> usize {
    key_distance(a.as_bytes(), b.as_bytes())
}

fn matched_cost(records: &[(Option<String>, Option<String>)]) -> usize {
    records
        .iter()
        .filter_map(|(l, r)| match (l, r) {
            (Some(l), Some(r)) => Some(dist(l, r)),
            _ => None,
        })
        .sum()
}

/// The least total distance over all matchings of `small` into `large`.
fn brute_force_min(small: &[&str], large: &[&str], used: &mut Vec<bool>, row: usize) -> usize {
    if row == small.len() {
        return 0;
    }
    let mut best = usize::MAX;
    for c in 0..large.len() {
        if !used[c] {
            used[c] = true;
            let cost = dist(small[row], large[c]) + brute_force_min(small, large, used, row + 1);
            used[c] = false;
            best = best.min(cost);
        }
    }
    best
}

#[test]
fn test_zip_two() {
    let answer = zip(&["aa", "bb", "cc"], &["ab", "bb"]);
    assert_eq!(answer.len(), 3);
    assert!(answer.contains(&(s("bb"), s("bb"))));
    assert!(answer.contains(&(s("aa"), s("ab"))));
    assert!(answer.contains(&(s("cc"), None)));
    assert_eq!(dist("bb", "bb"), 0);
    assert_eq!(dist("aa", "ab"), 1);
    assert_eq!(dist("cc", "ab"), 2);
}

#[test]
fn single_pair_is_complete() {
    let answer = zip(&["x"], &["y"]);
    assert_eq!(answer, vec![(s("x"), s("y"))]);
    assert_eq!(dist("x", "y"), 1);
}

#[test]
fn identical_single_pair() {
    let answer = zip(&["same"], &["same"]);
    assert_eq!(answer, vec![(s("same"), s("same"))]);
    assert_eq!(dist("same", "same"), 0);
}

#[test]
fn stragglers_come_last_in_order() {
    let answer = zip(&["b"], &["a", "b", "c", "d"]);
    assert_eq!(answer, vec![(s("b"), s("b")), (None, s("a")), (None, s("c")), (None, s("d"))]);
}

#[test]
fn swapped_stragglers_keep_left_side() {
    let answer = zip(&["a", "b", "c", "d"], &["b"]);
    assert_eq!(answer, vec![(s("b"), s("b")), (s("a"), None), (s("c"), None), (s("d"), None)]);
}

#[test]
fn pairs_come_from_last_row_first() {
    let answer = zip(&["alpha", "omega"], &["omega", "alpha", "delta"]);
    assert_eq!(answer, vec![(s("omega"), s("omega")), (s("alpha"), s("alpha")), (None, s("delta"))]);
}

#[test]
fn record_count_is_larger_side() {
    let names = ["aa", "ab", "ba", "bb", "abc", "cab"];
    for l in 1..=names.len() {
        for r in 1..=names.len() {
            let answer = zip(&names[..l], &names[names.len() - r..]);
            assert_eq!(answer.len(), l.max(r));
        }
    }
}

#[test]
fn every_index_appears_once() {
    let lefts = ["one", "two", "three", "four", "five"];
    let rights = ["too", "fore", "tree"];
    for (l, r) in [(&lefts[..], &rights[..]), (&rights[..], &lefts[..])] {
        let lp = paths(l);
        let rp = paths(r);
        let mut it = fuzzy_zip_two(&lp, &rp);
        let mut left_seen = vec![0; l.len()];
        let mut right_seen = vec![0; r.len()];
        while let Some(rec) = it.next() {
            if let Ok(p) = rec.get(0) {
                let i = lp.iter().position(|q| std::ptr::eq(q, *p)).unwrap();
                left_seen[i] += 1;
            }
            if let Ok(p) = rec.get(1) {
                let j = rp.iter().position(|q| std::ptr::eq(q, *p)).unwrap();
                right_seen[j] += 1;
            }
        }
        assert!(left_seen.iter().all(|&c| c == 1));
        assert!(right_seen.iter().all(|&c| c == 1));
    }
}

#[test]
fn matched_weight_is_least() {
    let fixtures: [(&[&str], &[&str]); 4] = [
        (&["aa", "bb", "cc"], &["ab", "bb"]),
        (&["kitten", "sitting", "mitten", "fitting"], &["sitten", "kitting", "smitten"]),
        (&["abc", "bca", "cab", "acb", "bac", "cba"], &["cba", "abc", "bac", "xyz", "ab", "c"]),
        (&["a", "ab", "abc"], &["abcd", "abcde", "b", "bc", "x", "xyz"]),
    ];
    for (l, r) in fixtures {
        let answer = zip(l, r);
        let (small, large) = if l.len() <= r.len() { (l, r) } else { (r, l) };
        let best = brute_force_min(small, large, &mut vec![false; large.len()], 0);
        assert_eq!(matched_cost(&answer), best);
    }
}

#[test]
fn equal_sizes_have_no_stragglers() {
    let answer = zip(&["red", "green", "blue"], &["bleu", "gren", "rad"]);
    assert_eq!(answer.len(), 3);
    assert!(answer.iter().all(|(l, r)| l.is_some() && r.is_some()));
}

#[test]
fn swapping_sides_mirrors_records() {
    let a = ["apple", "banana", "cherry", "date"];
    let b = ["bananas", "dates"];
    let forward = zip(&a, &b);
    let backward = zip(&b, &a);
    let mirrored: Vec<_> = backward.into_iter().map(|(l, r)| (r, l)).collect();
    assert_eq!(forward, mirrored);
}

#[test]
fn transposition_costs_one() {
    assert_eq!(dist("ab", "ba"), 1);
    assert_eq!(dist("", "abc"), 3);
    assert_eq!(dist("abc", ""), 3);
    assert_eq!(dist("kitten", "sitting"), 3);
}

#[test]
fn long_keys_are_refused() {
    let long = "x".repeat(5000);
    let lp = vec![FuzipPath::new("long".to_string(), long.as_bytes().to_vec())];
    let rp = paths(&["x"]);
    assert!(!fits_limits(&lp, &rp));
    assert!(try_fuzzy_zip_two(&lp, &rp).is_none());
    let short = paths(&["y"]);
    assert!(fits_limits(&short, &rp));
    let it = try_fuzzy_zip_two(&short, &rp).unwrap();
    assert_eq!(drain(it), vec![(s("y"), s("x"))]);
}

#[test]
fn iterator_is_fused_and_counts_down() {
    let l = paths(&["a", "b"]);
    let r = paths(&["a"]);
    let mut it = fuzzy_zip_two(&l, &r);
    assert_eq!(it.size_hint(), 2);
    assert!(it.next().is_some());
    assert_eq!(it.size_hint(), 1);
    assert!(it.next().is_some());
    assert_eq!(it.size_hint(), 0);
    assert!(it.next().is_none());
    assert!(it.next().is_none());
}

#[test]
fn fuzip_slots() {
    let f = Fuzip::new(vec![Some(7), None]);
    assert_eq!(f.width(), 2);
    assert!(!f.complete());
    assert_eq!(f.get(0), Ok(&7));
    assert_eq!(f.get(1), Err(FuzipMissing::NoMatch));
    assert_eq!(f.get(2), Err(FuzipMissing::OutOfBounds));
    let g = Fuzip::new(vec![Some(1), Some(2)]);
    assert!(g.complete());
    let e: Fuzip<u8> = Fuzip::new(vec![]);
    assert!(e.complete());
    assert_eq!(e.width(), 0);
}

#[test]
fn fuzip_path_accessors() {
    let p = FuzipPath::new("dir/report.txt".to_string(), b"report".to_vec());
    assert_eq!(p.key(), b"report");
    assert_eq!(p.display(), "dir/report.txt");
    assert_eq!(p.get(), "dir/report.txt");
}
