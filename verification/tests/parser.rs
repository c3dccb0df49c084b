use nya::parser::{parse_file, ParseError, Repository};

use nom::branch::alt;
use nom::bytes::complete::{is_not, tag};
use nom::character::complete::{char, line_ending, multispace0, space0};
use nom::combinator::{eof, opt, value};
use nom::multi::{many1, separated_list1};
use nom::sequence::{delimited, preceded, separated_pair, terminated};
use nom::{IResult, Parser};

fn strings(v: &[&str]) -> Vec<String> {
    v.iter().map(|s| s.to_string()).collect()
}

fn repo(uris: &[&str], suites: &[&str], components: &[&str], signed_by: Option<&str>) -> Repository {
    Repository {
        uris: strings(uris),
        suites: strings(suites),
        components: strings(components),
        signed_by: signed_by.map(|s| s.to_string()),
    }
}

#[test]
fn parses_a_single_block() {
    let text = "URIs: http://deb.debian.org/debian\nSuites: bookworm bookworm-updates\nComponents: main contrib\nSigned-By: /usr/share/keyrings/debian.gpg\n";
    assert_eq!(
        parse_file(text),
        Ok((
            text.len(),
            vec![repo(
                &["http://deb.debian.org/debian"],
                &["bookworm", "bookworm-updates"],
                &["main", "contrib"],
                Some("/usr/share/keyrings/debian.gpg"),
            )]
        ))
    );
}

#[test]
fn parses_blocks_separated_by_blank_lines_with_comments() {
    let text = "\n\n# first\nTypes: deb\nURIs: http://a.example/debian http://b.example/debian\n# inside\nSuites: stable\nComponents: main\n\n  \n# second\nURIs: http://c.example/ubuntu\nSuites: noble\nComponents: universe\nX-Unknown: ignored\n\n\n";
    let (rest, parsed) = parse_file(text).unwrap();
    assert_eq!(rest, text.len());
    assert_eq!(
        parsed,
        vec![
            repo(&["http://a.example/debian", "http://b.example/debian"], &["stable"], &["main"], None),
            repo(&["http://c.example/ubuntu"], &["noble"], &["universe"], None),
        ]
    );
}

#[test]
fn values_are_trimmed_and_repeated_keys_add_up() {
    let text = "URIs:   http://a.example  \r\nURIs: http://b.example\r\nSuites:\ts\r\nComponents: c1\r\nComponents: c2\r\nSigned-By:  k1 \r\nSigned-By: k2";
    assert_eq!(
        parse_file(text),
        Ok((text.len(), vec![repo(&["http://a.example", "http://b.example"], &["s"], &["c1", "c2"], Some("k2"))]))
    );
}

#[test]
fn refuses_a_first_block_that_lacks_a_component() {
    let text = "URIs: http://a.example\nSuites: s\n";
    assert_eq!(parse_file(text), Err(ParseError { position: text.chars().count() }));
    assert_eq!(parse_file(""), Err(ParseError { position: 0 }));
}

#[test]
fn stops_at_the_first_incomplete_later_block() {
    let text = "URIs: u1\nSuites: s\nComponents: c\n\nURIs: u2\n\nURIs: u3\nSuites: s\nComponents: c\n";
    assert_eq!(parse_file(text), Ok((34, vec![repo(&["u1"], &["s"], &["c"], None)])));
    assert_eq!(&text[34..], "URIs: u2\n\nURIs: u3\nSuites: s\nComponents: c\n");
}

#[test]
fn blocks_come_in_file_order_and_reading_ends_at_the_first_bad_block() {
    let text = "\nURIs: http://a.org\nSuites: s\nComponents: c\n\n\nURIs: http://b.org\nSuites: t\nComponents: d\nSigned-By: /k\n";
    assert_eq!(
        parse_file(text),
        Ok((
            text.len(),
            vec![
                repo(&["http://a.org"], &["s"], &["c"], None),
                repo(&["http://b.org"], &["t"], &["d"], Some("/k")),
            ]
        ))
    );
    let text = "URIs: http://a.org\nSuites: s\nComponents: c\n\nURIs: http://b.org\n";
    let (rest, parsed) = parse_file(text).unwrap();
    assert_eq!(&text[rest..], "URIs: http://b.org\n");
    assert_eq!(parsed, vec![repo(&["http://a.org"], &["s"], &["c"], None)]);
    assert!(parse_file("# only a comment\n").is_err());
}

#[test]
fn every_parsed_repository_is_valid() {
    let text = "URIs: u1\nSuites: s\nComponents: c\n\nURIs: u2\nSuites: s2\nComponents: c2\n";
    let (rest, parsed) = parse_file(text).unwrap();
    assert!(rest <= text.len());
    assert!(!parsed.is_empty());
    for r in &parsed {
        assert!(r.is_valid());
    }
}

#[test]
fn builds_the_inrelease_address() {
    let r = repo(&["http://deb.debian.org/debian", "http://b"], &["bookworm", "x"], &["main"], None);
    assert_eq!(
        r.inrelease_url(),
        Some("http://deb.debian.org/debian/dists/bookworm/InRelease".to_string())
    );
    assert_eq!(repo(&[], &["s"], &["c"], None).inrelease_url(), None);
    assert_eq!(repo(&["u"], &[], &["c"], None).inrelease_url(), None);
}

#[test]
fn builds_the_download_basename_from_the_host() {
    let r = repo(&["http://deb.debian.org/debian"], &["bookworm"], &["main"], None);
    assert_eq!(r.download_basename("_"), Some("deb.debian.org_bookworm_main".to_string()));
    let r = repo(&["http://deb.debian.org/debian"], &["bookworm"], &[], None);
    assert_eq!(r.download_basename("_"), None);
    let r = repo(&["not a url"], &["bookworm"], &["main"], None);
    assert_eq!(r.download_basename("_"), None);
}

// The same grammar written with nom's combinators, used as an oracle for
// `parse_file` on many inputs.

fn skip_comment(input: &str) -> IResult<&str, ()> {
    value((), preceded(char('#'), terminated(opt(is_not("\r\n")), alt((line_ending, eof))))).parse(input)
}

fn blank_line(input: &str) -> IResult<&str, ()> {
    value((), terminated(space0, alt((line_ending, eof)))).parse(input)
}

fn clean_inside_block(input: &str) -> IResult<&str, ()> {
    let mut input = input;
    loop {
        if let Ok((rest, _)) = skip_comment(input) {
            input = rest;
            continue;
        }
        if blank_line(input).is_ok() {
            break;
        }
        let (rest, _) = space0(input)?;
        input = rest;
        break;
    }
    Ok((input, ()))
}

fn key_value_line(input: &str) -> IResult<&str, (String, String)> {
    terminated(
        nom::combinator::map(
            separated_pair(is_not(":\r\n"), tag(":"), opt(is_not("\r\n"))),
            |(k, v): (&str, Option<&str>)| (k.trim().to_string(), v.unwrap_or("").trim().to_string()),
        ),
        alt((line_ending, eof)),
    )
    .parse(input)
}

fn oracle_block(input: &str) -> IResult<&str, Repository> {
    let (mut input, _) = clean_inside_block(input)?;
    let mut r = repo(&[], &[], &[], None);
    while let Ok((next_input, (key, value))) = key_value_line(input) {
        match key.as_str() {
            "URIs" => r.uris.extend(value.split_whitespace().map(String::from)),
            "Suites" => r.suites.extend(value.split_whitespace().map(String::from)),
            "Components" => r.components.extend(value.split_whitespace().map(String::from)),
            "Signed-By" => r.signed_by = Some(value),
            _ => (),
        }
        let (next_input, _) = clean_inside_block(next_input)?;
        input = next_input;
    }
    if r.uris.is_empty() || r.suites.is_empty() || r.components.is_empty() {
        Err(nom::Err::Error(nom::error::Error::new(input, nom::error::ErrorKind::Verify)))
    } else {
        Ok((input, r))
    }
}

fn block_separator(input: &str) -> IResult<&str, ()> {
    value((), many1(blank_line)).parse(input)
}

fn oracle(input: &str) -> Result<(usize, Vec<Repository>), usize> {
    match delimited(multispace0, separated_list1(block_separator, oracle_block), multispace0).parse(input) {
        Ok((rest, v)) => Ok((input.len() - rest.len(), v)),
        Err(nom::Err::Error(e)) | Err(nom::Err::Failure(e)) => Err(input.len() - e.input.len()),
        Err(nom::Err::Incomplete(_)) => Err(usize::MAX),
    }
}

const PIECES: [&str; 22] = [
    "URIs: http://a.example/debian",
    "URIs: u1 u2",
    "Suites: bookworm",
    "Suites:  s1\ts2 ",
    "Components: main contrib",
    "Components:c",
    "Signed-By: /k.gpg",
    "Signed-By:",
    "# comment",
    "#",
    "",
    "   ",
    "\t",
    "Foo: bar",
    "URIs:",
    ": x",
    "x",
    " Suites: s",
    "  # indented",
    "Key:: v",
    "\r",
    "Components: c\r",
];

const ENDINGS: [&str; 4] = ["\n", "\n", "\r\n", ""];

#[test]
fn agrees_with_the_combinator_grammar() {
    let mut seed: u64 = 0x2545_f491_4f6c_dd1d;
    let mut next = || {
        seed = seed.wrapping_mul(6364136223846793005).wrapping_add(1442695040888963407);
        (seed >> 33) as usize
    };
    for _ in 0..20000 {
        let lines = next() % 12;
        let mut text = String::new();
        for _ in 0..lines {
            text.push_str(PIECES[next() % PIECES.len()]);
            text.push_str(ENDINGS[next() % ENDINGS.len()]);
        }
        let mine = parse_file(&text).map_err(|e| e.position);
        assert_eq!(mine, oracle(&text), "input: {:?}", text);
    }
}
