use hashdeep_compare::nand::nand_only_in_first;

fn lines(v: &[&str]) -> Vec<String> {
    v.iter().map(|s| s.to_string()).collect()
}

const HEADER: [&str; 5] = [
    "%%%% HASHDEEP-1.0",
    "%%%% size,md5,sha256,filename",
    "## Invoked from: /home/user",
    "## $ hashdeep -lr hashdeepComp/",
    "## ",
];

fn log(body: &[&str]) -> Vec<String> {
    let mut v = lines(&HEADER);
    v.extend(lines(body));
    v
}

#[test]
fn nand_identical_logs_test() {
    // a log compared against itself leaves nothing on either side
    let a = log(&["4,aa,bb,dir/f.txt", "5,cc,dd,dir/g.txt"]);
    assert_eq!(nand_only_in_first(&a, &a), Vec::<String>::new());
}

#[test]
fn nand_difference_test() {
    let a = log(&["4,aa,bb,zz.txt", "5,cc,dd,shared.txt", "6,ee,ff,aa.txt"]);
    let b = log(&["5,cc,dd,shared.txt", "7,gg,hh,other.txt"]);
    // lines only in `a`, ordered by the text after the digest fields
    assert_eq!(nand_only_in_first(&a, &b), vec!["6,ee,ff,aa.txt", "4,aa,bb,zz.txt"]);
    assert_eq!(nand_only_in_first(&b, &a), vec!["7,gg,hh,other.txt"]);
}

#[test]
fn nand_duplicate_lines_test() {
    // repeated lines count once, and the five header lines never take part
    let a = log(&["4,aa,bb,p.txt", "4,aa,bb,p.txt"]);
    let b = log(&[]);
    assert_eq!(nand_only_in_first(&a, &b), vec!["4,aa,bb,p.txt"]);
    assert_eq!(nand_only_in_first(&b, &a), Vec::<String>::new());
}

#[test]
fn nand_short_key_lines_test() {
    // lines with fewer than four comma-separated fields sort under the
    // empty key, keeping their first-occurrence order
    let a = log(&["strange line", "4,aa,bb,p.txt", "another one"]);
    let b = log(&[]);
    assert_eq!(
        nand_only_in_first(&a, &b),
        vec!["strange line", "another one", "4,aa,bb,p.txt"]
    );
}
