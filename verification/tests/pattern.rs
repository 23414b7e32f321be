use regex::Regex;
use upcache::prelude::Nevra;

fn pattern() -> Regex {
    let name = "([^:()/=<> ]+)";
    let epoch = "([0-9]+:)?";
    let version = "([^-:(/=<> ]+)";
    let arch = "([^-:.(/=<> ]+)";
    Regex::new(&format!(r"^{}-{}{}-{}\.{}$", name, epoch, version, version, arch)).unwrap()
}

fn by_pattern(re: &Regex, text: &str) -> Option<Nevra> {
    let caps = re.captures(text)?;
    Some(Nevra {
        name: caps.get(1).unwrap().as_str().to_string(),
        epoch: caps.get(2).map(|m| m.as_str().trim_matches(':').to_string()),
        version: caps.get(3).unwrap().as_str().to_string(),
        release: caps.get(4).unwrap().as_str().to_string(),
        arch: caps.get(5).unwrap().as_str().to_string(),
    })
}

fn all_texts(alphabet: &[char], max_len: usize) -> Vec<String> {
    let mut out = vec![String::new()];
    let mut last = vec![String::new()];
    for _ in 0..max_len {
        let mut next = vec![];
        for s in &last {
            for c in alphabet {
                let mut t = s.clone();
                t.push(*c);
                next.push(t);
            }
        }
        out.extend(next.iter().cloned());
        last = next;
    }
    out
}

#[test]
fn reading_agrees_with_the_pattern_on_short_texts() {
    let re = pattern();
    for text in all_texts(&['a', '1', '-', '.', ':', ' '], 6) {
        assert_eq!(Nevra::from_str(&text).ok(), by_pattern(&re, &text), "{:?}", text);
    }
}

#[test]
fn reading_agrees_with_the_pattern_on_package_like_texts() {
    let re = pattern();
    let names = ["foo", "foo-libs", "a.b", "x)", "é", "(y"];
    let epochs = ["", "0:", "12:", ":", "a:", "1:2:"];
    let versions = ["1.0", "1", "1-2", "1:0", "", "1(0", "1)0"];
    let releases = ["1", "1.el9", "", "r=1"];
    let archs = ["noarch", "x86_64", "", "a.b", "a b", "\n"];
    for n in names {
        for e in epochs {
            for v in versions {
                for r in releases {
                    for a in archs {
                        let text = format!("{}-{}{}-{}.{}", n, e, v, r, a);
                        assert_eq!(Nevra::from_str(&text).ok(), by_pattern(&re, &text), "{:?}", text);
                    }
                }
            }
        }
    }
}
