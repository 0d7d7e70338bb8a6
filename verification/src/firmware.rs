//! Decisions of the endpoint that builds and serves sensor firmware.
//!
//! Serving firmware takes outside work in three steps: a build of the board's
//! project, then opening the built image, then streaming it. Each function
//! here takes what the previous step gave and says what to do next: answer
//! the client, or run the next step.

use vstd::prelude::*;
use vstd::string::StringExecFns;
use vstd::string::StrSliceExecFns;
use crate::types::FirmwareRequest;

verus! {

/// Status of a request that names an unsupported board.
pub const BAD_REQUEST: u16 = 400;

/// Status of a request whose firmware could not be built or found.
pub const INTERNAL_SERVER_ERROR: u16 = 500;

/// Whether `c` is white space in the sense of Unicode's `White_Space` property.
pub open spec fn is_white_space(c: char) -> bool {
    ||| '\t' <= c && c <= '\r'
    ||| c == ' '
    ||| c == '\u{85}'
    ||| c == '\u{A0}'
    ||| c == '\u{1680}'
    ||| '\u{2000}' <= c && c <= '\u{200A}'
    ||| c == '\u{2028}'
    ||| c == '\u{2029}'
    ||| c == '\u{202F}'
    ||| c == '\u{205F}'
    ||| c == '\u{3000}'
}

/// Whether `c` is white space.
///
/// Calls `char::is_whitespace`, documented as true exactly for the characters
/// with Unicode's `White_Space` property, which are the ones listed in
/// [`is_white_space`].
#[verifier::external_body]
fn char_is_whitespace(c: char) -> (res: bool)
    ensures
        res == is_white_space(c),
{
    c.is_whitespace()
}

/// `t` without the white space at its start.
pub open spec fn trim_start(t: Seq<char>) -> Seq<char>
    decreases t.len(),
{
    if t.len() > 0 && is_white_space(t[0]) {
        trim_start(t.drop_first())
    } else {
        t
    }
}

/// `t` without the white space at its end.
pub open spec fn trim_end(t: Seq<char>) -> Seq<char>
    decreases t.len(),
{
    if t.len() > 0 && is_white_space(t.last()) {
        trim_end(t.drop_last())
    } else {
        t
    }
}

/// `t` without the white space at either end.
pub open spec fn trim(t: Seq<char>) -> Seq<char> {
    trim_end(trim_start(t))
}

/// The pieces of `s` between commas, in order: one more than there are commas.
pub open spec fn split_commas(s: Seq<char>) -> Seq<Seq<char>>
    decreases s.len(),
{
    if s.len() == 0 {
        seq![Seq::empty()]
    } else {
        let init = split_commas(s.drop_last());
        if s.last() == ',' {
            init.push(Seq::empty())
        } else {
            init.update(init.len() - 1, init.last().push(s.last()))
        }
    }
}

proof fn lemma_split_commas_nonempty(s: Seq<char>)
    ensures
        split_commas(s).len() >= 1,
    decreases s.len(),
{
    if s.len() > 0 {
        lemma_split_commas_nonempty(s.drop_last());
    }
}

/// The names of a comma-separated list of boards: each piece between commas,
/// without surrounding white space.
pub open spec fn board_names(list: Seq<char>) -> Seq<Seq<char>> {
    split_commas(list).map_values(|piece: Seq<char>| trim(piece))
}

/// The pieces joined back together, with a comma between each two.
pub open spec fn join_with_commas(pieces: Seq<Seq<char>>) -> Seq<char>
    decreases pieces.len(),
{
    if pieces.len() == 0 {
        Seq::empty()
    } else if pieces.len() == 1 {
        pieces[0]
    } else {
        join_with_commas(pieces.drop_last()) + seq![','] + pieces.last()
    }
}

/// The list is cut at its commas and nowhere else: the pieces hold no comma,
/// and joining them with commas gives the list back.
pub proof fn lemma_split_commas_cuts_at_commas(s: Seq<char>)
    ensures
        split_commas(s).len() >= 1,
        join_with_commas(split_commas(s)) == s,
        forall|i: int, j: int|
            0 <= i < split_commas(s).len() && 0 <= j < split_commas(s)[i].len() ==> #[trigger] split_commas(
                s,
            )[i][j] != ',',
    decreases s.len(),
{
    if s.len() > 0 {
        let init = split_commas(s.drop_last());
        lemma_split_commas_cuts_at_commas(s.drop_last());
        let pieces = split_commas(s);
        if s.last() == ',' {
            assert(pieces.drop_last() =~= init);
            assert(pieces.last() =~= Seq::<char>::empty());
            assert(s =~= s.drop_last() + seq![','] + Seq::<char>::empty());
            assert forall|i: int, j: int|
                0 <= i < pieces.len() && 0 <= j < pieces[i].len() implies #[trigger] pieces[i][j] != ',' by {
                assert(pieces[i] == init[i]);
            }
        } else {
            let n = init.len();
            let p = init.last().push(s.last());
            assert(pieces == init.update(n - 1, p));
            assert(pieces.drop_last() =~= init.drop_last());
            if n == 1 {
                assert(init[0] == s.drop_last());
                assert(s =~= p);
            } else {
                let j0 = join_with_commas(init.drop_last());
                assert(join_with_commas(init) == j0 + seq![','] + init.last());
                assert(s =~= s.drop_last().push(s.last()));
                assert((j0 + seq![','] + init.last()).push(s.last()) =~= j0 + seq![','] + p);
                assert(join_with_commas(pieces) == j0 + seq![','] + p);
            }
            assert forall|i: int, j: int|
                0 <= i < pieces.len() && 0 <= j < pieces[i].len() implies #[trigger] pieces[i][j] != ',' by {
                if i < n - 1 {
                    assert(pieces[i] == init[i]);
                } else if j < init.last().len() {
                    assert(pieces[i][j] == init[n - 1][j]);
                }
            }
        }
    }
}

/// Trimming the start drops the white space before the first other
/// character, and nothing else.
pub proof fn lemma_trim_start_drops_leading_space(t: Seq<char>)
    ensures
        exists|a: int|
            0 <= a <= t.len() && trim_start(t) == t.subrange(a, t.len() as int) && (forall|k: int|
                0 <= k < a ==> is_white_space(#[trigger] t[k])) && (a < t.len() ==> !is_white_space(t[a])),
    decreases t.len(),
{
    if t.len() > 0 && is_white_space(t[0]) {
        lemma_trim_start_drops_leading_space(t.drop_first());
        let r = t.drop_first();
        let a = choose|a: int|
            0 <= a <= r.len() && trim_start(r) == r.subrange(a, r.len() as int) && (forall|k: int|
                0 <= k < a ==> is_white_space(#[trigger] r[k])) && (a < r.len() ==> !is_white_space(r[a]));
        assert(r.subrange(a, r.len() as int) =~= t.subrange(a + 1, t.len() as int));
        assert forall|k: int| 0 <= k < a + 1 implies is_white_space(#[trigger] t[k]) by {
            if k > 0 {
                assert(t[k] == r[k - 1]);
            }
        }
        assert(a + 1 < t.len() ==> t[a + 1] == r[a]);
    } else {
        assert(t.subrange(0, t.len() as int) =~= t);
    }
}

/// Trimming the end drops the white space after the last other character,
/// and nothing else.
pub proof fn lemma_trim_end_drops_trailing_space(t: Seq<char>)
    ensures
        exists|b: int|
            0 <= b <= t.len() && trim_end(t) == t.subrange(0, b) && (forall|k: int|
                b <= k < t.len() ==> is_white_space(#[trigger] t[k])) && (b > 0 ==> !is_white_space(t[b - 1])),
    decreases t.len(),
{
    if t.len() > 0 && is_white_space(t.last()) {
        lemma_trim_end_drops_trailing_space(t.drop_last());
        let r = t.drop_last();
        let b = choose|b: int|
            0 <= b <= r.len() && trim_end(r) == r.subrange(0, b) && (forall|k: int|
                b <= k < r.len() ==> is_white_space(#[trigger] r[k])) && (b > 0 ==> !is_white_space(r[b - 1]));
        assert(r.subrange(0, b) =~= t.subrange(0, b));
        assert forall|k: int| b <= k < t.len() implies is_white_space(#[trigger] t[k]) by {
            if k < t.len() - 1 {
                assert(t[k] == r[k]);
            }
        }
        assert(b > 0 ==> t[b - 1] == r[b - 1]);
    } else {
        assert(t.subrange(0, t.len() as int) =~= t);
    }
}

/// The bounds of the trimmed piece of `s` between `start` and `end`.
fn trim_bounds(s: &str, start: usize, end: usize) -> (bounds: (usize, usize))
    requires
        start <= end <= s@.len(),
    ensures
        start <= bounds.0 <= bounds.1 <= end,
        s@.subrange(bounds.0 as int, bounds.1 as int) == trim(s@.subrange(start as int, end as int)),
{
    let mut a = start;
    while a < end && char_is_whitespace(s.get_char(a))
        invariant
            start <= a <= end <= s@.len(),
            trim_start(s@.subrange(start as int, end as int)) == trim_start(s@.subrange(a as int, end as int)),
        decreases end - a,
    {
        assert(s@.subrange(a as int, end as int).drop_first() =~= s@.subrange(a + 1, end as int));
        a = a + 1;
    }
    let mut b = end;
    while b > a && char_is_whitespace(s.get_char(b - 1))
        invariant
            start <= a <= b <= end <= s@.len(),
            trim_start(s@.subrange(start as int, end as int)) == s@.subrange(a as int, end as int),
            trim_end(s@.subrange(a as int, end as int)) == trim_end(s@.subrange(a as int, b as int)),
        decreases b - a,
    {
        assert(s@.subrange(a as int, b as int).drop_last() =~= s@.subrange(a as int, b - 1));
        b = b - 1;
    }
    (a, b)
}

/// The board names in a comma-separated list, as `list.split(',')` followed
/// by trimming each piece gives them.
pub fn parse_board_list(list: &str) -> (boards: Vec<String>)
    ensures
        boards@.map_values(|b: String| b@) == board_names(list@),
        boards@.len() == split_commas(list@).len(),
        join_with_commas(split_commas(list@)) == list@,
        forall|i: int| 0 <= i < boards@.len() ==> #[trigger] boards@[i]@ == trim(split_commas(list@)[i]),
{
    proof {
        lemma_split_commas_cuts_at_commas(list@);
    }
    let n = list.unicode_len();
    let mut boards: Vec<String> = Vec::new();
    let mut start: usize = 0;
    let mut i: usize = 0;
    while i < n
        invariant
            n == list@.len(),
            start <= i <= n,
            split_commas(list@.take(i as int)).last() == list@.subrange(start as int, i as int),
            boards@.map_values(|b: String| b@) == split_commas(list@.take(i as int)).drop_last().map_values(
                |piece: Seq<char>| trim(piece),
            ),
        decreases n - i,
    {
        let ghost before = split_commas(list@.take(i as int));
        proof {
            lemma_split_commas_nonempty(list@.take(i as int));
            assert(list@.take(i + 1).drop_last() =~= list@.take(i as int));
        }
        if list.get_char(i) == ',' {
            let (a, b) = trim_bounds(list, start, i);
            let piece = String::from_str(list.substring_char(a, b));
            let ghost old_boards = boards@.map_values(|b: String| b@);
            boards.push(piece);
            proof {
                let after = split_commas(list@.take(i + 1));
                assert(after == before.push(Seq::empty()));
                assert(after.drop_last() =~= before);
                assert(before =~= before.drop_last().push(before.last()));
                assert(boards@.map_values(|b: String| b@) =~= old_boards.push(piece@));
                assert(after.drop_last().map_values(|p: Seq<char>| trim(p)) =~= before.drop_last().map_values(
                    |p: Seq<char>| trim(p),
                ).push(trim(before.last())));
                assert(list@.subrange(i + 1, i + 1) =~= Seq::<char>::empty());
            }
            start = i + 1;
        } else {
            proof {
                let after = split_commas(list@.take(i + 1));
                assert(after == before.update(before.len() - 1, before.last().push(list@[i as int])));
                assert(after.drop_last() =~= before.drop_last());
                assert(list@.subrange(start as int, i + 1) =~= list@.subrange(start as int, i as int).push(
                    list@[i as int],
                ));
            }
        }
        i = i + 1;
    }
    proof {
        lemma_split_commas_nonempty(list@);
        assert(list@.take(n as int) =~= list@);
    }
    let (a, b) = trim_bounds(list, start, n);
    let piece = String::from_str(list.substring_char(a, b));
    let ghost old_boards = boards@.map_values(|b: String| b@);
    boards.push(piece);
    proof {
        let all = split_commas(list@);
        assert(all =~= all.drop_last().push(all.last()));
        assert(boards@.map_values(|b: String| b@) =~= old_boards.push(piece@));
        assert(all.map_values(|p: Seq<char>| trim(p)) =~= all.drop_last().map_values(|p: Seq<char>| trim(p)).push(
            trim(all.last()),
        ));
        let views = boards@.map_values(|b: String| b@);
        assert forall|i: int| 0 <= i < boards@.len() implies #[trigger] boards@[i]@ == trim(split_commas(list@)[i]) by {
            assert(views[i] == boards@[i]@);
        }
    }
    boards
}

/// Whether `board` is one of `boards`.
pub fn is_supported_board(boards: &Vec<String>, board: &str) -> (res: bool)
    ensures
        res == boards@.map_values(|b: String| b@).contains(board@),
{
    let wanted = String::from_str(board);
    let mut i: usize = 0;
    while i < boards.len()
        invariant
            i <= boards.len(),
            wanted@ == board@,
            forall|j: int| 0 <= j < i ==> boards@[j]@ != board@,
        decreases boards.len() - i,
    {
        if boards[i] == wanted {
            assert(boards@.map_values(|b: String| b@)[i as int] == board@);
            return true;
        }
        i = i + 1;
    }
    proof {
        if boards@.map_values(|b: String| b@).contains(board@) {
            let names = boards@.map_values(|b: String| b@);
            let j = choose|j: int| 0 <= j < names.len() && #[trigger] names[j] == board@;
            assert(boards@[j]@ == board@);
        }
    }
    false
}

/// What the firmware endpoint does next.
#[derive(Debug)]
pub enum FirmwareAction {
    /// Answer the client with this status and text.
    Respond { status: u16, body: String },
    /// Run `cargo build --release` in `project_dir` with `DEVICE_ID`,
    /// `WIFI_SSID` and `WIFI_PASSWORD` set to these values.
    Build { project_dir: String, device_id: String, wifi_ssid: String, wifi_password: String },
    /// Open the built image at `path`.
    Open { path: String },
    /// Stream the opened image as `application/octet-stream` with this
    /// `Content-Disposition`.
    Stream { content_disposition: String },
}

/// `action` answers with `status` and the text `body`.
pub open spec fn responds_with(action: FirmwareAction, status: u16, body: Seq<char>) -> bool {
    action matches FirmwareAction::Respond { status: s, body: b } && s == status && b@ == body
}

/// `action` builds the project in `dir` with this key and these credentials.
pub open spec fn builds(
    action: FirmwareAction,
    dir: Seq<char>,
    key: Seq<char>,
    ssid: Seq<char>,
    password: Seq<char>,
) -> bool {
    action matches FirmwareAction::Build { project_dir, device_id, wifi_ssid, wifi_password } && project_dir@
        == dir && device_id@ == key && wifi_ssid@ == ssid && wifi_password@ == password
}

/// `action` opens the image at `p`.
pub open spec fn opens(action: FirmwareAction, p: Seq<char>) -> bool {
    action matches FirmwareAction::Open { path } && path@ == p
}

/// `action` streams the image with the disposition `d`.
pub open spec fn streams(action: FirmwareAction, d: Seq<char>) -> bool {
    action matches FirmwareAction::Stream { content_disposition } && content_disposition@ == d
}

/// How running the build went.
#[derive(Debug)]
pub enum BuildOutcome {
    /// The build ran and succeeded.
    Succeeded,
    /// The build ran and failed; what it wrote to standard error.
    Failed { stderr: String },
    /// The build could not be started; the error's text.
    NotStarted { error: String },
}

/// The answer for an unsupported board.
pub open spec fn unsupported_board_body(board: Seq<char>) -> Seq<char> {
    "Unsupported board: "@ + board
}

fn unsupported_board(board: &str) -> (action: FirmwareAction)
    ensures
        responds_with(action, BAD_REQUEST, unsupported_board_body(board@)),
{
    FirmwareAction::Respond {
        status: BAD_REQUEST,
        body: String::from_str("Unsupported board: ").concat(board),
    }
}

/// First step: a board that is not in the comma-separated list
/// `supported_boards` is refused; otherwise the board's project, in
/// `base_dir/board`, is built with the request's key and Wi-Fi credentials.
pub fn start_firmware_build(base_dir: &str, request: &FirmwareRequest, supported_boards: &str) -> (action: FirmwareAction)
    ensures
        !board_names(supported_boards@).contains(request.board@) ==> responds_with(
            action,
            BAD_REQUEST,
            unsupported_board_body(request.board@),
        ),
        board_names(supported_boards@).contains(request.board@) ==> builds(
            action,
            base_dir@ + "/"@ + request.board@,
            request.key@,
            request.ssid@,
            request.password@,
        ),
{
    let board = request.board.as_str();
    let supported = parse_board_list(supported_boards);
    if !is_supported_board(&supported, board) {
        return unsupported_board(board);
    }
    let project_dir = String::from_str(base_dir).concat("/").concat(board);
    FirmwareAction::Build {
        project_dir,
        device_id: request.key.clone(),
        wifi_ssid: request.ssid.clone(),
        wifi_password: request.password.clone(),
    }
}

/// The only board whose image location is known.
pub const ESP32C6: &'static str = "esp32c6";

/// Where the build of the `esp32c6` project in `project_dir` leaves the image.
pub open spec fn esp32c6_image_path(project_dir: Seq<char>) -> Seq<char> {
    project_dir + "/target/riscv32imc-unknown-none-elf/release/firmware"@
}

/// Second step: a build that failed or could not start is reported as a
/// server error; after a successful build the image of an `esp32c6` is
/// opened, and any other board is refused.
pub fn after_firmware_build(project_dir: &str, board: &str, outcome: BuildOutcome) -> (action: FirmwareAction)
    ensures
        outcome matches BuildOutcome::Failed { stderr } ==> responds_with(
            action,
            INTERNAL_SERVER_ERROR,
            "Build failed:\n"@ + stderr@,
        ),
        outcome matches BuildOutcome::NotStarted { error } ==> responds_with(
            action,
            INTERNAL_SERVER_ERROR,
            "Failed to run build command: "@ + error@,
        ),
        outcome is Succeeded && board@ == ESP32C6@ ==> opens(action, esp32c6_image_path(project_dir@)),
        outcome is Succeeded && board@ != ESP32C6@ ==> responds_with(
            action,
            BAD_REQUEST,
            unsupported_board_body(board@),
        ),
{
    match outcome {
        BuildOutcome::Failed { stderr } => FirmwareAction::Respond {
            status: INTERNAL_SERVER_ERROR,
            body: String::from_str("Build failed:\n").concat(stderr.as_str()),
        },
        BuildOutcome::NotStarted { error } => FirmwareAction::Respond {
            status: INTERNAL_SERVER_ERROR,
            body: String::from_str("Failed to run build command: ").concat(error.as_str()),
        },
        BuildOutcome::Succeeded => {
            if String::from_str(board) == String::from_str(ESP32C6) {
                FirmwareAction::Open {
                    path: String::from_str(project_dir).concat(
                        "/target/riscv32imc-unknown-none-elf/release/firmware",
                    ),
                }
            } else {
                unsupported_board(board)
            }
        },
    }
}

/// Whether `c` may stand in an HTTP header value: a tab, or a character from
/// the space on other than DEL.
pub open spec fn header_value_char(c: char) -> bool {
    c == '\t' || (' ' <= c && c != '\u{7f}')
}

/// Whether every character of `t` may stand in an HTTP header value.
pub open spec fn header_value_text(t: Seq<char>) -> bool {
    forall|i: int| 0 <= i < t.len() ==> header_value_char(#[trigger] t[i])
}

/// Whether `s` is a valid HTTP header value.
///
/// Calls `http::HeaderValue::from_str` (through `axum::http`), which accepts
/// text whose bytes are all a tab, or at least 32 and not 127; as every byte
/// of a multi-byte character is at least 128, that is the condition on
/// characters stated here.
#[verifier::external_body]
fn is_valid_header_value(s: &str) -> (res: bool)
    ensures
        res == header_value_text(s@),
{
    axum::http::HeaderValue::from_str(s).is_ok()
}

/// The `Content-Disposition` that names the download after the board.
pub open spec fn attachment_disposition(board: Seq<char>) -> Seq<char> {
    "attachment; filename=\""@ + board + ".bin\""@
}

/// Third step: an image that could not be opened is reported as a server
/// error; an opened one is streamed as an attachment named after the board,
/// or as a plain attachment when that name cannot stand in a header.
pub fn after_firmware_open(board: &str, opened: Result<(), String>) -> (action: FirmwareAction)
    ensures
        opened matches Err(error) ==> responds_with(
            action,
            INTERNAL_SERVER_ERROR,
            "Firmware file not found: "@ + error@,
        ),
        opened is Ok && header_value_text(attachment_disposition(board@)) ==> streams(
            action,
            attachment_disposition(board@),
        ),
        opened is Ok && !header_value_text(attachment_disposition(board@)) ==> streams(
            action,
            "attachment"@,
        ),
{
    match opened {
        Err(error) => FirmwareAction::Respond {
            status: INTERNAL_SERVER_ERROR,
            body: String::from_str("Firmware file not found: ").concat(error.as_str()),
        },
        Ok(()) => {
            let named = String::from_str("attachment; filename=\"").concat(board).concat(".bin\"");
            if is_valid_header_value(named.as_str()) {
                FirmwareAction::Stream { content_disposition: named }
            } else {
                FirmwareAction::Stream { content_disposition: String::from_str("attachment") }
            }
        },
    }
}

/// The texts and paths that the firmware steps use, written out.
pub proof fn lemma_firmware_texts(board: Seq<char>, project_dir: Seq<char>)
    ensures
        unsupported_board_body(board) == "Unsupported board: "@ + board,
        esp32c6_image_path(project_dir) == project_dir + "/target/riscv32imc-unknown-none-elf/release/firmware"@,
        attachment_disposition(board) == "attachment; filename=\""@ + board + ".bin\""@,
{
}

} // verus!
