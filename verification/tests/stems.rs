use stemplayer::error::Error;
use stemplayer::paths::{extension, file_name, file_stem, join_path};
use stemplayer::progress::{error_summary, keep_tail, read_percentages, split_failure};
use stemplayer::stems::{
    check_stems, demucs_candidates, demucs_flags, found_program, path_for_demucs, song_name,
    split_result, Present,
};

#[test]
fn paths_are_joined_as_by_std() {
    for base in ["", "/", "/a", "/a/", "a", "a//"] {
        for rel in ["", "b", "b/c", "/b", "/"] {
            let expected = std::path::Path::new(base).join(rel).display().to_string();
            assert_eq!(join_path(base, rel), expected, "{} {}", base, rel);
        }
    }
}

#[test]
fn names_are_taken_apart_as_by_std() {
    let parts = [
        "", "/", ".", "..", "...", "a", "a.b", "a.b.c", ".a", ".a.b", "a.", "a..b", "..a", " ", "é.ü",
    ];
    let mut paths: Vec<String> = Vec::new();
    for a in parts {
        for b in parts {
            for c in parts {
                paths.push(format!("{}/{}/{}", a, b, c));
            }
            paths.push(format!("{}/{}", a, b));
        }
        paths.push(a.to_string());
    }
    for p in &paths {
        let std = std::path::Path::new(p);
        let name = std.file_name().and_then(|s| s.to_str());
        let stem = std.file_stem().and_then(|s| s.to_str());
        let ext = std.extension().and_then(|s| s.to_str());
        assert_eq!(file_name(p).as_deref(), name, "{:?}", p);
        assert_eq!(file_stem(p).as_deref(), stem, "{:?}", p);
        assert_eq!(extension(p).as_deref(), ext, "{:?}", p);
    }
}

#[test]
fn the_program_is_looked_for() {
    assert_eq!(
        demucs_candidates(Some("/Users/me")),
        vec![
            "demucs",
            "/Users/me/Library/Python/3.13/bin/demucs",
            "/Users/me/Library/Python/3.12/bin/demucs",
            "/Users/me/Library/Python/3.11/bin/demucs",
            "/Users/me/Library/Python/3.10/bin/demucs",
            "/Users/me/Library/Python/3.9/bin/demucs",
            "/Users/me/.local/bin/demucs",
            "/opt/homebrew/bin/demucs",
            "/usr/local/bin/demucs",
            "/usr/bin/demucs",
        ]
    );
    assert_eq!(
        demucs_candidates(None),
        vec![
            "demucs",
            "/opt/homebrew/bin/demucs",
            "/usr/local/bin/demucs",
            "/usr/bin/demucs",
        ]
    );
}

#[test]
fn the_program_gets_a_search_path() {
    assert_eq!(
        path_for_demucs(Some("/h/"), Some("/x:/y")),
        "/usr/local/bin:/opt/homebrew/bin:/usr/bin:/bin:/usr/sbin:/sbin:\
         /h/Library/Python/3.13/bin:/h/Library/Python/3.12/bin:/h/Library/Python/3.11/bin:\
         /h/Library/Python/3.10/bin:/h/Library/Python/3.9/bin:/h/.local/bin:/h/.cargo/bin:/x:/y"
    );
    assert_eq!(
        path_for_demucs(None, None),
        "/usr/local/bin:/opt/homebrew/bin:/usr/bin:/bin:/usr/sbin:/sbin"
    );
}

#[test]
fn the_program_is_called_for_mp3_stems() {
    assert_eq!(
        demucs_flags(),
        vec!["--mp3", "--mp3-bitrate", "192", "-d", "mps", "-n", "htdemucs", "-o"]
    );
}

#[test]
fn a_split_needs_a_program_and_a_name() {
    assert_eq!(found_program(Some("demucs".to_string())), Ok("demucs".to_string()));
    assert_eq!(
        found_program(None),
        Err(Error::Other(
            "demucs not found — install with `pip3 install --user demucs`".to_string()
        ))
    );
    assert_eq!(song_name(Some("/music/song.mp3")), Ok("song".to_string()));
    assert_eq!(song_name(Some("/")), Err(Error::Other("bad input filename".to_string())));
    assert_eq!(song_name(None), Err(Error::Other("bad input filename".to_string())));
}

#[test]
fn stems_are_below_the_output_directory() {
    let r = split_result("/tmp/out", "my song");
    assert_eq!(r.bass, "/tmp/out/htdemucs/my song/bass.mp3");
    assert_eq!(r.drums, "/tmp/out/htdemucs/my song/drums.mp3");
    assert_eq!(r.other, "/tmp/out/htdemucs/my song/other.mp3");
    assert_eq!(r.vocals, "/tmp/out/htdemucs/my song/vocals.mp3");
    assert_eq!(r.track_name, "my song");
}

#[test]
fn a_missing_stem_is_named() {
    let r = split_result("o", "s");
    let all = Present { bass: true, drums: true, other: true, vocals: true };
    let failure = |there: Present| check_stems(&r, there).unwrap_err().message();
    assert_eq!(check_stems(&r, all), Ok(()));
    assert_eq!(
        failure(Present { vocals: false, ..all }),
        "demucs ran but expected stem missing: o/htdemucs/s/vocals.mp3"
    );
    assert_eq!(
        failure(Present { bass: false, other: false, ..all }),
        "demucs ran but expected stem missing: o/htdemucs/s/bass.mp3"
    );
    assert_eq!(
        failure(Present { drums: false, other: false, ..all }),
        "demucs ran but expected stem missing: o/htdemucs/s/drums.mp3"
    );
    assert_eq!(
        failure(Present { other: false, vocals: false, ..all }),
        "demucs ran but expected stem missing: o/htdemucs/s/other.mp3"
    );
}

#[test]
fn useful_errors_are_repeated() {
    let stderr = "x.py:3: UserWarning: old\n  warnings.warn(\n\r\nFileNotFoundError: a.mp3\r\n \t\u{3000}\n\
                  torchaudio.load_with_torchcodec is new\nlast\r";
    assert_eq!(error_summary(stderr), "FileNotFoundError: a.mp3 / last\r");
}

#[test]
fn the_last_line_is_better_than_none() {
    assert_eq!(error_summary("a UserWarning\n  warnings.warn(b)\n"), "  warnings.warn(b)");
    assert_eq!(error_summary("a UserWarning\n\n"), "");
    assert_eq!(error_summary(""), "(no error output)");
}

#[test]
fn lines_end_as_in_std() {
    for text in ["", "\n", "a", "a\n", "a\r\nb", "a\rb\n", "\r\n", "\r", "a\r\r\nb\r\n\n", "é\nü"] {
        let kept: Vec<&str> = text.lines().filter(|l| !l.trim().is_empty()).collect();
        let expected = if kept.is_empty() {
            text.lines().last().unwrap_or("(no error output)").to_string()
        } else {
            kept.join(" / ")
        };
        assert_eq!(error_summary(text), expected, "{:?}", text);
    }
}

#[test]
fn white_space_is_that_of_unicode() {
    for n in 0..=0x10ffffu32 {
        if let Some(c) = char::from_u32(n) {
            if c != '\n' && (c.is_whitespace() || n < 0x3100) {
                let summary = error_summary(&format!("{}\nUserWarning", c));
                if c.is_whitespace() {
                    assert_eq!(summary, "UserWarning", "{}", n);
                } else {
                    assert_eq!(summary, c.to_string(), "{}", n);
                }
            }
        }
    }
}

#[test]
fn a_failed_split_is_explained() {
    assert_eq!(
        split_failure("exit status: 1", "boom\n").message(),
        "demucs failed (exit exit status: 1): boom"
    );
}

#[test]
fn percentages_are_found() {
    assert_eq!(read_percentages(b"  0%|    | 0.0/1\r 12%|#  |\r 99.5%|##"), vec!["0", "12", "99.5"]);
    assert_eq!(read_percentages(b"% .% ..% a% 5 %"), Vec::<String>::new());
    assert_eq!(read_percentages(b"1.2.3%4%%x7%"), vec!["1.2.3", "4", "7"]);
    assert_eq!(read_percentages("█ 50%█".as_bytes()), vec!["50"]);
    assert_eq!(read_percentages(b""), Vec::<String>::new());
}

#[test]
fn later_percentages_come_last() {
    let before = b"10% 20".to_vec();
    let mut after = before.clone();
    after.extend_from_slice(b"% 30%");
    assert_eq!(read_percentages(&before), vec!["10"]);
    assert_eq!(read_percentages(&after), vec!["10", "20", "30"]);
}

#[test]
fn only_the_end_of_the_output_is_kept() {
    let short = vec![b'a'; 4096];
    assert_eq!(keep_tail(short.clone()), short);
    let long: Vec<u8> = (0..4097u32).map(|i| (i % 100) as u8).collect();
    assert_eq!(keep_tail(long.clone()), long[3073..].to_vec());
}

#[test]
fn a_cut_inside_a_character_loses_no_percentage() {
    let bar = "█".repeat(2000) + " 7%|";
    for lead in 0..3 {
        let mut output = vec![b' '; lead];
        output.extend_from_slice(bar.as_bytes());
        let kept = keep_tail(output.clone());
        assert_eq!(kept, output[output.len() - 1024..].to_vec());
        assert_eq!(read_percentages(&kept), vec!["7"]);
    }
}
