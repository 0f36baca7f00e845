//! The downloader options that need an explicit acknowledgement (they run
//! programs, load code or reach local files) and those whose values are secrets.

use vstd::prelude::*;
use crate::text::str_equals;

verus! {

/// Options that can make the downloader run other programs or load code.
pub open spec fn is_dangerous(flag: Seq<char>) -> bool {
    ||| flag == "--exec"@
    ||| flag == "--plugin-dirs"@
    ||| flag == "--external-downloader"@
    ||| flag == "--external-downloader-args"@
    ||| flag == "--enable-file-urls"@
    ||| flag == "--netrc-cmd"@
    ||| flag == "--alias"@
    ||| flag == "--use-postprocessor"@
}

/// Options whose values are credentials.
pub open spec fn is_sensitive(flag: Seq<char>) -> bool {
    ||| flag == "--password"@
    ||| flag == "--twofactor"@
    ||| flag == "--video-password"@
    ||| flag == "--ap-password"@
    ||| flag == "--client-certificate-password"@
    ||| flag == "--username"@
    ||| flag == "--ap-username"@
}

/// Whether `flag` is one of the dangerous options.
pub fn is_dangerous_flag(flag: &str) -> (r: bool)
    ensures
        r == is_dangerous(flag@),
{
    str_equals(flag, "--exec") || str_equals(flag, "--plugin-dirs") || str_equals(
        flag,
        "--external-downloader",
    ) || str_equals(flag, "--external-downloader-args") || str_equals(flag, "--enable-file-urls")
        || str_equals(flag, "--netrc-cmd") || str_equals(flag, "--alias") || str_equals(
        flag,
        "--use-postprocessor",
    )
}

/// Whether `flag` is one of the sensitive options.
pub fn is_sensitive_flag(flag: &str) -> (r: bool)
    ensures
        r == is_sensitive(flag@),
{
    str_equals(flag, "--password") || str_equals(flag, "--twofactor") || str_equals(
        flag,
        "--video-password",
    ) || str_equals(flag, "--ap-password") || str_equals(flag, "--client-certificate-password")
        || str_equals(flag, "--username") || str_equals(flag, "--ap-username")
}

/// The views of a list of strings.
pub open spec fn strings_view(args: Seq<String>) -> Seq<Seq<char>> {
    args.map_values(|s: String| s@)
}

/// Whether `i` is the position of the first dangerous option in `args`.
pub open spec fn is_first_dangerous(args: Seq<Seq<char>>, i: int) -> bool {
    &&& 0 <= i < args.len()
    &&& is_dangerous(args[i])
    &&& forall|j: int| 0 <= j < i ==> !is_dangerous(#[trigger] args[j])
}

/// The message that refuses a dangerous option without acknowledgement.
pub open spec fn acknowledgement_message(flag: Seq<char>) -> Seq<char> {
    flag + " requires the Advanced Mode acknowledgement"@
}

/// Refuses an argument list that holds a dangerous option, unless the user
/// acknowledged them; the error names the first such option.
pub fn validate_args(args: &[String], allow_dangerous_options: bool) -> (r: Result<(), String>)
    ensures
        r is Ok <==> (allow_dangerous_options || forall|i: int|
            0 <= i < args@.len() ==> !is_dangerous(#[trigger] args@[i]@)),
        r matches Err(e) ==> exists|i: int|
            is_first_dangerous(strings_view(args@), i) && e@ == acknowledgement_message(
                #[trigger] args@[i]@,
            ),
{
    if allow_dangerous_options {
        return Ok(());
    }
    let mut i: usize = 0;
    while i < args.len()
        invariant
            !allow_dangerous_options,
            i <= args@.len(),
            forall|j: int| 0 <= j < i ==> !is_dangerous(#[trigger] args@[j]@),
        decreases args@.len() - i,
    {
        if is_dangerous_flag(args[i].as_str()) {
            let mut message = args[i].clone();
            message.append(" requires the Advanced Mode acknowledgement");
            proof {
                let v = strings_view(args@);
                assert(is_dangerous(args@[i as int]@));
                assert forall|j: int| 0 <= j < i implies !is_dangerous(#[trigger] v[j]) by {
                    assert(v[j] == args@[j]@);
                }
                assert(is_first_dangerous(v, i as int));
            }
            return Err(message);
        }
        i += 1;
    }
    Ok(())
}


/// The dangerous options are exactly these eight: `--exec`, `--plugin-dirs`,
/// `--external-downloader`, `--external-downloader-args`,
/// `--enable-file-urls`, `--netrc-cmd`, `--alias` and `--use-postprocessor`.
/// Every other flag, such as `--output`, is not dangerous, so an argument
/// list holding none of the eight is never refused.
pub proof fn law_dangerous_flags_are_the_eight(flag: Seq<char>, args: Seq<Seq<char>>)
    ensures
        is_dangerous(flag) <==> seq![
            "--exec"@,
            "--plugin-dirs"@,
            "--external-downloader"@,
            "--external-downloader-args"@,
            "--enable-file-urls"@,
            "--netrc-cmd"@,
            "--alias"@,
            "--use-postprocessor"@,
        ].contains(flag),
        (forall|i: int|
            0 <= i < args.len() ==> !seq![
                "--exec"@,
                "--plugin-dirs"@,
                "--external-downloader"@,
                "--external-downloader-args"@,
                "--enable-file-urls"@,
                "--netrc-cmd"@,
                "--alias"@,
                "--use-postprocessor"@,
            ].contains(#[trigger] args[i])) ==> forall|i: int|
            0 <= i < args.len() ==> !is_dangerous(#[trigger] args[i]),
{
    let list = seq![
        "--exec"@,
        "--plugin-dirs"@,
        "--external-downloader"@,
        "--external-downloader-args"@,
        "--enable-file-urls"@,
        "--netrc-cmd"@,
        "--alias"@,
        "--use-postprocessor"@,
    ];
    assert forall|f: Seq<char>| is_dangerous(f) <==> list.contains(f) by {
        if is_dangerous(f) {
            if f == "--exec"@ { assert(list[0] == f); }
            if f == "--plugin-dirs"@ { assert(list[1] == f); }
            if f == "--external-downloader"@ { assert(list[2] == f); }
            if f == "--external-downloader-args"@ { assert(list[3] == f); }
            if f == "--enable-file-urls"@ { assert(list[4] == f); }
            if f == "--netrc-cmd"@ { assert(list[5] == f); }
            if f == "--alias"@ { assert(list[6] == f); }
            if f == "--use-postprocessor"@ { assert(list[7] == f); }
        }
        if list.contains(f) {
            let k = choose|k: int| 0 <= k < list.len() && list[k] == f;
            assert(0 <= k < 8);
        }
    }
}

/// The sensitive options are exactly these seven credential options:
/// `--password`, `--twofactor`, `--video-password`, `--ap-password`,
/// `--client-certificate-password`, `--username` and `--ap-username`. Every
/// other flag, such as `--format`, is not sensitive.
pub proof fn law_sensitive_flags_are_the_seven(flag: Seq<char>)
    ensures
        is_sensitive(flag) <==> seq![
            "--password"@,
            "--twofactor"@,
            "--video-password"@,
            "--ap-password"@,
            "--client-certificate-password"@,
            "--username"@,
            "--ap-username"@,
        ].contains(flag),
{
    let list = seq![
        "--password"@,
        "--twofactor"@,
        "--video-password"@,
        "--ap-password"@,
        "--client-certificate-password"@,
        "--username"@,
        "--ap-username"@,
    ];
    if is_sensitive(flag) {
        if flag == "--password"@ { assert(list[0] == flag); }
        if flag == "--twofactor"@ { assert(list[1] == flag); }
        if flag == "--video-password"@ { assert(list[2] == flag); }
        if flag == "--ap-password"@ { assert(list[3] == flag); }
        if flag == "--client-certificate-password"@ { assert(list[4] == flag); }
        if flag == "--username"@ { assert(list[5] == flag); }
        if flag == "--ap-username"@ { assert(list[6] == flag); }
    }
    if list.contains(flag) {
        let k = choose|k: int| 0 <= k < list.len() && list[k] == flag;
        assert(0 <= k < 7);
    }
}

} // verus!
