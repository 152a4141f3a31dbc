use nunitius::para::Paragraph;
use nunitius::text::TextBuf;

fn para(lines: &[&str]) -> Paragraph {
    Paragraph::from_lines(lines.iter().map(|line| TextBuf::new(line.to_string())).collect())
}

#[test]
fn para_rewrap() {
    let mut p = para(&["fo😀obar"]);

    p.rewrap(4);

    assert_eq!(p, para(&["fo😀", "obar"]));
}

#[test]
fn para_rewrap_keeps_spaces() {
    let mut p = para(&["foo bar"]);

    p.rewrap(4);

    assert_eq!(p, para(&["foo ", "bar"]));
}

#[test]
fn para_idx_of_coords() {
    let p = para(&["one", "two", "three", "four"]);
    assert_eq!(p.idx_of_coords(3, 4), 15);
}

#[test]
fn para_coords_of_idx() {
    let p = para(&["foo", "bar"]);
    assert_eq!(p.coords_of_idx(3), (0, 3));
}

#[test]
fn para_coords_of_idx_0() {
    let p = para(&["a"]);
    assert_eq!(p.coords_of_idx(0), (0, 0));
}

#[test]
fn para_coords_round_trip() {
    let p = para(&["ab", "", "cde"]);
    assert_eq!(p.coords_of_idx(2), (0, 2));
    assert_eq!(p.coords_of_idx(3), (2, 1));
    assert_eq!(p.idx_of_coords(2, 1), 3);
}

#[test]
fn para_split_off() {
    let mut p = para(&["foo", "bar", "baz", "quux"]);

    assert_eq!(p.split_off(2, 1), para(&["az", "quux"]));
    assert_eq!(p, para(&["foo", "bar", "b"]));
}

#[test]
fn para_split_off_between_clusters() {
    let mut p = para(&["a🦀b"]);

    assert_eq!(p.split_off(0, 2), para(&["b"]));
    assert_eq!(p, para(&["a🦀"]));
}

#[test]
fn para_join() {
    let mut para1 = para(&["alpha", "beta"]);
    let para2 = para(&["gamma", "delta"]);

    para1.join(para2);
    assert_eq!(para1, para(&["alpha", "beta", "gamma", "delta"]));
}

#[test]
fn para_insert_and_remove() {
    let mut p = para(&["ab", "cd"]);
    p.insert("x", 1, 1);
    assert_eq!(p, para(&["ab", "cxd"]));
    p.remove(0, 0);
    assert_eq!(p, para(&["b", "cxd"]));
    assert_eq!(p.num_lines(), 2);
    assert_eq!(p.line(1).as_str(), "cxd");
    let lines: Vec<&str> = p.lines().iter().map(|l| l.as_str()).collect();
    assert_eq!(lines, ["b", "cxd"]);
}

#[test]
fn rewrap() {
    let mut p = para(&["foo bar"]);

    p.rewrap(4);

    assert_eq!(p, para(&["foo ", "bar"]));
}

#[test]
fn idx_of_coords() {
    let p = para(&["one", "two", "three", "four"]);

    assert_eq!(p.idx_of_coords(3, 4), 15);
}

#[test]
fn coords_of_idx() {
    let p = para(&["foo", "bar"]);

    assert_eq!(p.coords_of_idx(3), (0, 3));
}

#[test]
fn coords_of_idx_0() {
    let p = para(&["a"]);

    assert_eq!(p.coords_of_idx(0), (0, 0));
}

#[test]
fn split_off() {
    let mut p = para(&["foo", "bar", "baz", "quux"]);

    assert_eq!(p.split_off(2, 1), para(&["az", "quux"]));
    assert_eq!(p, para(&["foo", "bar", "b"]));
}

#[test]
fn join() {
    let mut para1 = para(&["alpha", "beta"]);
    let para2 = para(&["gamma", "delta"]);

    para1.join(para2);
    assert_eq!(para1, para(&["alpha", "beta", "gamma", "delta"]));
}
