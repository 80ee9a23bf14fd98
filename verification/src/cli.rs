use vstd::prelude::*;

use crate::text::{chars_of, is_white_space, is_white_space_char, push_char, same_text};

verus! {

/// The character of base64 digit `v` (0 to 63) in the standard alphabet.
pub open spec fn base64_digit(v: int) -> char {
    if v < 26 {
        (65 + v) as char
    } else if v < 52 {
        (97 + v - 26) as char
    } else if v < 62 {
        (48 + v - 52) as char
    } else if v == 62 {
        '+'
    } else {
        '/'
    }
}

/// Byte `i` of `data`, or zero past its end.
pub open spec fn byte_or_zero(data: Seq<u8>, i: int) -> u8 {
    if i < data.len() {
        data[i]
    } else {
        0
    }
}

/// The four characters that encode group `g` (bytes 3g, 3g+1, 3g+2) of `data`, padded
/// with '=' where the group is short.
pub open spec fn base64_group(data: Seq<u8>, g: int) -> Seq<char> {
    let b0 = byte_or_zero(data, 3 * g);
    let b1 = byte_or_zero(data, 3 * g + 1);
    let b2 = byte_or_zero(data, 3 * g + 2);
    seq![
        base64_digit((b0 >> 2) as int),
        base64_digit((((b0 & 3) << 4) | (b1 >> 4)) as int),
        if 3 * g + 1 < data.len() {
            base64_digit((((b1 & 15) << 2) | (b2 >> 6)) as int)
        } else {
            '='
        },
        if 3 * g + 2 < data.len() {
            base64_digit((b2 & 63) as int)
        } else {
            '='
        },
    ]
}

/// The encodings of the first `g` groups of `data`.
pub open spec fn base64_groups(data: Seq<u8>, g: nat) -> Seq<char>
    decreases g,
{
    if g == 0 {
        Seq::empty()
    } else {
        base64_groups(data, (g - 1) as nat) + base64_group(data, g - 1)
    }
}

/// Standard padded base64 of `data`.
pub open spec fn base64_of(data: Seq<u8>) -> Seq<char> {
    base64_groups(data, ((data.len() + 2) / 3) as nat)
}

proof fn lemma_base64_groups_len(data: Seq<u8>, g: nat)
    ensures
        base64_groups(data, g).len() == 4 * g,
    decreases g,
{
    if g > 0 {
        lemma_base64_groups_len(data, (g - 1) as nat);
    }
}

/// The encoded text has four characters for every started group of three bytes.
pub proof fn lemma_base64_len(data: Seq<u8>)
    ensures
        base64_of(data).len() == 4 * ((data.len() + 2) / 3),
{
    lemma_base64_groups_len(data, ((data.len() + 2) / 3) as nat);
}

fn digit(v: u32) -> (c: char)
    requires
        v < 64,
    ensures
        c == base64_digit(v as int),
{
    if v < 26 {
        ((65 + v) as u8) as char
    } else if v < 52 {
        ((97 + v - 26) as u8) as char
    } else if v < 62 {
        ((48 + v - 52) as u8) as char
    } else if v == 62 {
        '+'
    } else {
        '/'
    }
}

/// Encodes bytes as standard padded base64.
pub fn base64_encode(data: &[u8]) -> (out: String)
    ensures
        out@ == base64_of(data@),
{
    let mut out = String::new();
    let mut i: usize = 0;
    let ghost mut g: nat = 0;
    while i < data.len()
        invariant
            i == 3 * g,
            i <= data.len() + 2,
            g <= (data@.len() + 2) / 3,
            i < data.len() ==> g < (data@.len() + 2) / 3,
            i >= data.len() ==> g == (data@.len() + 2) / 3,
            out@ == base64_groups(data@, g),
        decreases data.len() + 3 - i,
    {
        let b0 = data[i];
        let b1: u8 = if i + 1 < data.len() {
            data[i + 1]
        } else {
            0
        };
        let b2: u8 = if i + 2 < data.len() {
            data[i + 2]
        } else {
            0
        };
        let n: u32 = ((b0 as u32) << 16) | ((b1 as u32) << 8) | (b2 as u32);
        proof {
            assert(((n >> 18) & 63) == (b0 >> 2) as u32 && ((n >> 12) & 63) == (((b0 & 3) << 4) | (
            b1 >> 4)) as u32 && ((n >> 6) & 63) == (((b1 & 15) << 2) | (b2 >> 6)) as u32 && (n & 63)
                == (b2 & 63) as u32 && ((n >> 18) & 63) < 64 && ((n >> 12) & 63) < 64 && ((n >> 6)
                & 63) < 64 && (n & 63) < 64) by (bit_vector)
                requires
                    n == ((b0 as u32) << 16) | ((b1 as u32) << 8) | (b2 as u32),
            ;
        }
        push_char(&mut out, digit((n >> 18) & 63));
        push_char(&mut out, digit((n >> 12) & 63));
        if i + 1 < data.len() {
            push_char(&mut out, digit((n >> 6) & 63));
        } else {
            push_char(&mut out, '=');
        }
        if i + 2 < data.len() {
            push_char(&mut out, digit(n & 63));
        } else {
            push_char(&mut out, '=');
        }
        proof {
            assert(out@ =~= base64_groups(data@, g + 1));
            g = g + 1;
        }
        i = i + 3;
    }
    out
}

/// Content type served for a file extension.
pub open spec fn mime_type(extension: Seq<char>) -> Seq<char> {
    if extension == "html"@ {
        "text/html; charset=utf-8"@
    } else if extension == "js"@ {
        "text/javascript; charset=utf-8"@
    } else if extension == "wasm"@ {
        "application/wasm"@
    } else if extension == "json"@ {
        "application/json; charset=utf-8"@
    } else if extension == "csv"@ {
        "text/csv; charset=utf-8"@
    } else if extension == "css"@ {
        "text/css; charset=utf-8"@
    } else if extension == "svg"@ {
        "image/svg+xml"@
    } else {
        "application/octet-stream"@
    }
}

/// The content type for a file with extension `extension` (empty when there is none).
pub fn mime_for(extension: &str) -> (r: &'static str)
    ensures
        r@ == mime_type(extension@),
{
    if same_text(extension, "html") {
        "text/html; charset=utf-8"
    } else if same_text(extension, "js") {
        "text/javascript; charset=utf-8"
    } else if same_text(extension, "wasm") {
        "application/wasm"
    } else if same_text(extension, "json") {
        "application/json; charset=utf-8"
    } else if same_text(extension, "csv") {
        "text/csv; charset=utf-8"
    } else if same_text(extension, "css") {
        "text/css; charset=utf-8"
    } else if same_text(extension, "svg") {
        "image/svg+xml"
    } else {
        "application/octet-stream"
    }
}

/// Where `calc` reads the case and writes its reports.
#[derive(Clone, Debug)]
pub struct CalcOptions {
    pub input: String,
    pub json_out: Option<String>,
    pub csv_out: Option<String>,
}

/// Why the arguments of `calc` are refused.
#[derive(Clone, Debug)]
pub enum CalcArgsError {
    /// No case file was named.
    MissingInput,
    /// `--json` came last, without a path.
    MissingJsonPath,
    /// `--csv` came last, without a path.
    MissingCsvPath,
    /// An argument that is not an option of `calc`.
    UnknownOption(String),
}

/// The outcome of reading `calc` options, as texts.
pub enum OptionsModel {
    Parsed { json_out: Option<Seq<char>>, csv_out: Option<Seq<char>> },
    MissingJsonPath,
    MissingCsvPath,
    UnknownOption(Seq<char>),
}

/// Reads the options from position `i` on, with the output paths found so far; a later
/// `--json` or `--csv` replaces an earlier one.
pub open spec fn read_options(
    args: Seq<Seq<char>>,
    i: int,
    json_out: Option<Seq<char>>,
    csv_out: Option<Seq<char>>,
) -> OptionsModel
    decreases args.len() - i,
{
    if i >= args.len() || i < 0 {
        OptionsModel::Parsed { json_out, csv_out }
    } else if args[i] == "--json"@ {
        if i + 1 >= args.len() {
            OptionsModel::MissingJsonPath
        } else {
            read_options(args, i + 2, Some(args[i + 1]), csv_out)
        }
    } else if args[i] == "--csv"@ {
        if i + 1 >= args.len() {
            OptionsModel::MissingCsvPath
        } else {
            read_options(args, i + 2, json_out, Some(args[i + 1]))
        }
    } else {
        OptionsModel::UnknownOption(args[i])
    }
}

pub open spec fn opt_text(o: Option<String>) -> Option<Seq<char>> {
    match o {
        Some(s) => Some(s@),
        None => None,
    }
}

/// Reads the arguments of `calc`: the case file, then any of `--json <path>` and
/// `--csv <path>`.
pub fn parse_calc_options(args: &Vec<String>) -> (r: Result<CalcOptions, CalcArgsError>)
    ensures
        args.len() == 0 ==> r matches Err(CalcArgsError::MissingInput),
        args.len() > 0 ==> match read_options(args@.map_values(|a: String| a@), 1, None, None) {
            OptionsModel::Parsed { json_out, csv_out } => r matches Ok(o) && o.input@
                == args@[0]@ && opt_text(o.json_out) == json_out && opt_text(o.csv_out) == csv_out,
            OptionsModel::MissingJsonPath => r matches Err(CalcArgsError::MissingJsonPath),
            OptionsModel::MissingCsvPath => r matches Err(CalcArgsError::MissingCsvPath),
            OptionsModel::UnknownOption(a) => r matches Err(CalcArgsError::UnknownOption(u)) && u@
                == a,
        },
{
    if args.len() == 0 {
        return Err(CalcArgsError::MissingInput);
    }
    let ghost all = args@.map_values(|a: String| a@);
    let mut json_out: Option<String> = None;
    let mut csv_out: Option<String> = None;
    let mut i: usize = 1;
    while i < args.len()
        invariant
            1 <= i,
            args.len() > 0,
            all == args@.map_values(|a: String| a@),
            read_options(all, i as int, opt_text(json_out), opt_text(csv_out)) == read_options(
                all,
                1,
                None,
                None,
            ),
        decreases args.len() - i,
    {
        let a = args[i].as_str();
        assert(all[i as int] == a@);
        if same_text(a, "--json") {
            if i + 1 >= args.len() {
                return Err(CalcArgsError::MissingJsonPath);
            }
            assert(all[i + 1] == args@[i + 1]@);
            json_out = Some(args[i + 1].as_str().to_string());
            i = i + 2;
        } else if same_text(a, "--csv") {
            if i + 1 >= args.len() {
                return Err(CalcArgsError::MissingCsvPath);
            }
            assert(all[i + 1] == args@[i + 1]@);
            csv_out = Some(args[i + 1].as_str().to_string());
            i = i + 2;
        } else {
            return Err(CalcArgsError::UnknownOption(a.to_string()));
        }
    }
    Ok(CalcOptions { input: args[0].as_str().to_string(), json_out, csv_out })
}

// ---------------------------------------------------------------------------
// Routing of a static-file request
// ---------------------------------------------------------------------------

/// Position of the first line feed at or after `i`, or the length.
pub open spec fn line_feed_at_or_after(s: Seq<char>, i: int) -> int
    decreases s.len() - i,
{
    if i >= s.len() || s[i] == '\n' {
        i
    } else {
        line_feed_at_or_after(s, i + 1)
    }
}

/// The first line of a request, without its line ending (`\n` or `\r\n`).
pub open spec fn first_line(s: Seq<char>) -> Seq<char> {
    let e = line_feed_at_or_after(s, 0);
    if e < s.len() && e > 0 && s[e - 1] == '\r' {
        s.subrange(0, e - 1)
    } else {
        s.subrange(0, e)
    }
}

/// First position at or after `i` that is not white space.
pub open spec fn skip_space(s: Seq<char>, i: int) -> int
    decreases s.len() - i,
{
    if i >= s.len() || !is_white_space(s[i]) {
        i
    } else {
        skip_space(s, i + 1)
    }
}

/// First position at or after `i` that is white space, or the length.
pub open spec fn word_end(s: Seq<char>, i: int) -> int
    decreases s.len() - i,
{
    if i >= s.len() || is_white_space(s[i]) {
        i
    } else {
        word_end(s, i + 1)
    }
}

/// The first two white-space separated words of a line: the method and the target.
pub open spec fn request_words(line: Seq<char>) -> (Option<Seq<char>>, Option<Seq<char>>) {
    let a = skip_space(line, 0);
    let b = word_end(line, a);
    let c = skip_space(line, b);
    let d = word_end(line, c);
    (
        if a < line.len() {
            Some(line.subrange(a, b))
        } else {
            None
        },
        if c < line.len() {
            Some(line.subrange(c, d))
        } else {
            None
        },
    )
}

/// Position of the first '?' in `s`, or its length.
pub open spec fn query_start(s: Seq<char>, i: int) -> int
    decreases s.len() - i,
{
    if i >= s.len() || s[i] == '?' {
        i
    } else {
        query_start(s, i + 1)
    }
}

/// Number of leading '/' characters from `i` on.
pub open spec fn slashes_end(s: Seq<char>, i: int) -> int
    decreases s.len() - i,
{
    if i >= s.len() || s[i] != '/' {
        i
    } else {
        slashes_end(s, i + 1)
    }
}

/// The requested path relative to the served directory: the target up to any query,
/// without leading slashes.
pub open spec fn relative_path(target: Seq<char>) -> Seq<char> {
    let q = query_start(target, 0);
    let p = target.subrange(0, q);
    p.subrange(slashes_end(p, 0), p.len() as int)
}

/// The path climbs out of the served directory or is not a plain relative path.
pub open spec fn unsafe_path(rel: Seq<char>) -> bool {
    crate::text::seq_contains(rel, ".."@) || (rel.len() > 0 && rel[0] == '/') || exists|i: int|
        0 <= i < rel.len() && #[trigger] rel[i] == '\\'
}

/// What a static-file server does with a request.
#[derive(Clone, Debug)]
pub enum Route {
    /// The method is not GET.
    MethodNotAllowed,
    /// The request names no file: serve the default document.
    DefaultDocument,
    /// The path is refused.
    BadPath,
    /// Serve this path, relative to the served directory.
    File(String),
}

/// How a request text is routed.
pub open spec fn route_of(request: Seq<char>) -> RouteModel {
    let (method, target) = request_words(first_line(request));
    let m = match method {
        Some(w) => w,
        None => Seq::empty(),
    };
    let t = match target {
        Some(w) => w,
        None => "/"@,
    };
    let rel = relative_path(t);
    if m != "GET"@ {
        RouteModel::MethodNotAllowed
    } else if rel.len() == 0 {
        RouteModel::DefaultDocument
    } else if unsafe_path(rel) {
        RouteModel::BadPath
    } else {
        RouteModel::File(rel)
    }
}

pub enum RouteModel {
    MethodNotAllowed,
    DefaultDocument,
    BadPath,
    File(Seq<char>),
}

/// A request that is served names a non-empty path that holds no "..", does not start
/// with '/' and holds no backslash: it stays inside the served directory.
pub proof fn lemma_served_paths_stay_inside(request: Seq<char>)
    ensures
        route_of(request) matches RouteModel::File(p) ==> p.len() > 0
            && !crate::text::seq_contains(p, ".."@) && p[0] != '/' && forall|i: int|
            0 <= i < p.len() ==> p[i] != '\\',
{
}

/// Whether a path relative to the served directory is refused.
pub fn is_unsafe_path(rel: &str) -> (r: bool)
    ensures
        r == unsafe_path(rel@),
{
    if crate::text::text_contains(rel, "..") {
        return true;
    }
    let v = chars_of(rel);
    if v.len() > 0 && v[0] == '/' {
        return true;
    }
    let mut i: usize = 0;
    while i < v.len()
        invariant
            v@ == rel@,
            i <= v.len(),
            !crate::text::seq_contains(rel@, ".."@),
            !(v.len() > 0 && v@[0] == '/'),
            forall|j: int| 0 <= j < i ==> #[trigger] v@[j] != '\\',
        decreases v.len() - i,
    {
        if v[i] == '\\' {
            return true;
        }
        i = i + 1;
    }
    false
}

fn text_of(v: &Vec<char>, from: usize, to: usize) -> (r: String)
    requires
        from <= to <= v.len(),
    ensures
        r@ == v@.subrange(from as int, to as int),
{
    let mut out = String::new();
    let mut i = from;
    while i < to
        invariant
            from <= i <= to <= v.len(),
            out@ == v@.subrange(from as int, i as int),
        decreases to - i,
    {
        push_char(&mut out, v[i]);
        assert(out@ =~= v@.subrange(from as int, i + 1));
        i = i + 1;
    }
    out
}

/// Routes a request by its first line: anything but GET is refused; a target (up to any
/// query, without leading slashes) that is empty asks for the default document; one that
/// holds "..", starts with '/' or holds a backslash is refused; anything else names a file.
pub fn route_request(request: &str) -> (r: Route)
    ensures
        match (r, route_of(request@)) {
            (Route::MethodNotAllowed, RouteModel::MethodNotAllowed) => true,
            (Route::DefaultDocument, RouteModel::DefaultDocument) => true,
            (Route::BadPath, RouteModel::BadPath) => true,
            (Route::File(p), RouteModel::File(q)) => p@ == q,
            _ => false,
        },
{
    let s = chars_of(request);
    let mut e: usize = 0;
    while e < s.len() && s[e] != '\n'
        invariant
            s@ == request@,
            e <= s.len(),
            line_feed_at_or_after(s@, e as int) == line_feed_at_or_after(s@, 0),
        decreases s.len() - e,
    {
        e = e + 1;
    }
    let end = if e < s.len() && e > 0 && s[e - 1] == '\r' {
        e - 1
    } else {
        e
    };
    let line = text_of(&s, 0, end);
    assert(line@ == first_line(request@));
    let l = chars_of(line.as_str());
    let mut a: usize = 0;
    while a < l.len() && is_white_space_char(l[a])
        invariant
            a <= l.len(),
            skip_space(l@, a as int) == skip_space(l@, 0),
        decreases l.len() - a,
    {
        a = a + 1;
    }
    let mut b: usize = a;
    while b < l.len() && !is_white_space_char(l[b])
        invariant
            a <= b <= l.len(),
            word_end(l@, b as int) == word_end(l@, a as int),
        decreases l.len() - b,
    {
        b = b + 1;
    }
    let mut c: usize = b;
    while c < l.len() && is_white_space_char(l[c])
        invariant
            b <= c <= l.len(),
            skip_space(l@, c as int) == skip_space(l@, b as int),
        decreases l.len() - c,
    {
        c = c + 1;
    }
    let mut d: usize = c;
    while d < l.len() && !is_white_space_char(l[d])
        invariant
            c <= d <= l.len(),
            word_end(l@, d as int) == word_end(l@, c as int),
        decreases l.len() - d,
    {
        d = d + 1;
    }
    let is_get = a < l.len() && same_text(text_of(&l, a, b).as_str(), "GET");
    proof {
        if a >= l.len() {
            assert(l@.len() == 0 || a == l.len());
            reveal_strlit("GET");
            assert(Seq::<char>::empty() != "GET"@) by {
                assert("GET"@.len() == 3);
            }
        }
    }
    if !is_get {
        return Route::MethodNotAllowed;
    }
    let target = if c < l.len() {
        text_of(&l, c, d)
    } else {
        "/".to_string()
    };
    let t = chars_of(target.as_str());
    let mut qpos: usize = 0;
    while qpos < t.len() && t[qpos] != '?'
        invariant
            qpos <= t.len(),
            query_start(t@, qpos as int) == query_start(t@, 0),
        decreases t.len() - qpos,
    {
        qpos = qpos + 1;
    }
    let ghost p = t@.subrange(0, qpos as int);
    let mut sl: usize = 0;
    while sl < qpos && t[sl] == '/'
        invariant
            sl <= qpos <= t.len(),
            p == t@.subrange(0, qpos as int),
            slashes_end(p, sl as int) == slashes_end(p, 0),
        decreases qpos - sl,
    {
        assert(p[sl as int] == t@[sl as int]);
        sl = sl + 1;
    }
    proof {
        if sl < qpos {
            assert(p[sl as int] == t@[sl as int]);
        }
    }
    let rel = text_of(&t, sl, qpos);
    assert(rel@ =~= p.subrange(slashes_end(p, 0), p.len() as int));
    if rel.as_str().is_empty() {
        return Route::DefaultDocument;
    }
    if is_unsafe_path(rel.as_str()) {
        return Route::BadPath;
    }
    Route::File(rel)
}

// ---------------------------------------------------------------------------
// Commands of the command-line program
// ---------------------------------------------------------------------------

/// What the command-line program is asked to do.
#[derive(Clone, Debug)]
pub enum Command {
    /// Print the usage text.
    Help,
    /// Print the starter case as JSON.
    Sample,
    /// Calculate a case (its arguments follow the command word).
    Calc,
    /// Serve a directory over HTTP (its arguments follow the command word).
    Serve,
    /// Embed a WebAssembly module into an HTML template (its arguments follow).
    EmbedWasm,
    /// Print the version.
    Version,
    /// A command word that is not one of the above.
    Unknown(String),
}

/// The command that arguments `args` (without the program name) ask for.
pub open spec fn command_is(args: Seq<Seq<char>>, c: Command) -> bool {
    if args.len() == 0 || args[0] == "-h"@ || args[0] == "--help"@ {
        c is Help
    } else if args[0] == "sample"@ {
        c is Sample
    } else if args[0] == "calc"@ {
        c is Calc
    } else if args[0] == "serve"@ {
        c is Serve
    } else if args[0] == "embed-wasm"@ {
        c is EmbedWasm
    } else if args[0] == "version"@ {
        c is Version
    } else {
        c matches Command::Unknown(w) && w@ == args[0]
    }
}

/// Reads the command word: none, "-h" or "--help" asks for help.
pub fn parse_command(args: &Vec<String>) -> (c: Command)
    ensures
        command_is(args@.map_values(|a: String| a@), c),
{
    let ghost all = args@.map_values(|a: String| a@);
    if args.len() == 0 {
        return Command::Help;
    }
    let w = args[0].as_str();
    assert(all[0] == w@);
    if same_text(w, "-h") || same_text(w, "--help") {
        Command::Help
    } else if same_text(w, "sample") {
        Command::Sample
    } else if same_text(w, "calc") {
        Command::Calc
    } else if same_text(w, "serve") {
        Command::Serve
    } else if same_text(w, "embed-wasm") {
        Command::EmbedWasm
    } else if same_text(w, "version") {
        Command::Version
    } else {
        Command::Unknown(w.to_string())
    }
}

/// The value of a run of decimal digits.
pub open spec fn digits_value(s: Seq<char>) -> int
    decreases s.len(),
{
    if s.len() == 0 {
        0
    } else {
        digits_value(s.drop_last()) * 10 + (s.last() as int - '0' as int)
    }
}

/// Every character is an ASCII decimal digit.
pub open spec fn all_digits(s: Seq<char>) -> bool {
    forall|i: int| 0 <= i < s.len() ==> '0' <= #[trigger] s[i] <= '9'
}

/// A port number as `str::parse::<u16>` reads it: an optional '+', then one or more
/// decimal digits whose value is at most 65535.
pub open spec fn port_number(s: Seq<char>) -> Option<int> {
    let d = if s.len() > 0 && s[0] == '+' {
        s.drop_first()
    } else {
        s
    };
    if d.len() > 0 && all_digits(d) && digits_value(d) <= 65535 {
        Some(digits_value(d))
    } else {
        None
    }
}

proof fn lemma_digits_value_grows(s: Seq<char>, i: int, j: int)
    requires
        all_digits(s),
        0 <= i <= j <= s.len(),
    ensures
        0 <= digits_value(s.take(i)) <= digits_value(s.take(j)),
    decreases j - i,
{
    if i < j {
        lemma_digits_value_grows(s, i, j - 1);
        assert(s.take(j).drop_last() =~= s.take(j - 1));
        assert(s.take(j).last() == s[j - 1]);
    } else {
        lemma_digits_value_nonneg(s.take(i));
    }
}

proof fn lemma_digits_value_nonneg(s: Seq<char>)
    requires
        all_digits(s),
    ensures
        digits_value(s) >= 0,
    decreases s.len(),
{
    if s.len() > 0 {
        lemma_digits_value_nonneg(s.drop_last());
    }
}

/// Reads a port number as `str::parse::<u16>` does.
pub fn parse_port(text: &str) -> (r: Option<u16>)
    ensures
        match r {
            Some(p) => port_number(text@) == Some(p as int),
            None => port_number(text@) is None,
        },
{
    let v = chars_of(text);
    let start: usize = if v.len() > 0 && v[0] == '+' {
        1
    } else {
        0
    };
    let ghost d = if text@.len() > 0 && text@[0] == '+' {
        text@.drop_first()
    } else {
        text@
    };
    assert(d =~= v@.subrange(start as int, v.len() as int));
    if start >= v.len() {
        return None;
    }
    let mut value: u32 = 0;
    let mut i: usize = start;
    while i < v.len()
        invariant
            v@ == text@,
            start <= i <= v.len(),
            d == v@.subrange(start as int, v.len() as int),
            d == (if text@.len() > 0 && text@[0] == '+' {
                text@.drop_first()
            } else {
                text@
            }),
            d.len() > 0,
            all_digits(d.take(i - start)),
            value == digits_value(d.take(i - start)),
            value <= 65535,
        decreases v.len() - i,
    {
        let c = v[i];
        if !('0' <= c && c <= '9') {
            assert(d[i - start] == c);
            assert(!all_digits(d));
            return None;
        }
        proof {
            assert(d.take(i - start + 1).drop_last() =~= d.take(i - start));
            assert(d.take(i - start + 1).last() == c);
            assert(all_digits(d.take(i - start + 1)));
        }
        let next: u32 = value * 10 + (c as u32 - '0' as u32);
        assert(next == digits_value(d.take(i - start + 1)));
        if next > 65535 {
            proof {
                if all_digits(d) {
                    lemma_digits_value_grows(d, i - start + 1, d.len() as int);
                    assert(d.take(d.len() as int) =~= d);
                    assert(digits_value(d) > 65535);
                }
            }
            return None;
        }
        value = next;
        i = i + 1;
    }
    assert(d.take(i - start) =~= d);
    Some(value as u16)
}

/// Where `serve` serves from and on which port.
#[derive(Clone, Debug)]
pub struct ServeOptions {
    pub dir: String,
    pub port: u16,
}

/// Reads the arguments of `serve`: the directory ("web" when absent), then the port
/// (8080 when absent or not a port number).
pub fn parse_serve_options(args: &Vec<String>) -> (o: ServeOptions)
    ensures
        o.dir@ == (if args.len() > 0 {
            args@[0]@
        } else {
            "web"@
        }),
        o.port == (if args.len() > 1 {
            match port_number(args@[1]@) {
                Some(p) => p,
                None => 8080,
            }
        } else {
            8080
        }),
{
    let dir = if args.len() > 0 {
        args[0].as_str().to_string()
    } else {
        "web".to_string()
    };
    let port = if args.len() > 1 {
        match parse_port(args[1].as_str()) {
            Some(p) => p,
            None => 8080,
        }
    } else {
        8080
    };
    ServeOptions { dir, port }
}

// ---------------------------------------------------------------------------
// Embedding the WebAssembly module in the workstation page
// ---------------------------------------------------------------------------

/// `s` with every occurrence of the non-empty `p`, taken from left to right without
/// overlap, replaced by `r`, as `str::replace` does.
pub open spec fn replaced(s: Seq<char>, p: Seq<char>, r: Seq<char>) -> Seq<char>
    decreases s.len(),
{
    if p.len() == 0 || s.len() < p.len() {
        s
    } else if s.take(p.len() as int) == p {
        r + replaced(s.skip(p.len() as int), p, r)
    } else {
        seq![s[0]] + replaced(s.skip(1), p, r)
    }
}

fn window_matches(v: &Vec<char>, i: usize, p: &Vec<char>) -> (r: bool)
    requires
        i <= v.len(),
    ensures
        r == (i + p.len() <= v.len() && v@.subrange(i as int, i + p.len()) == p@),
{
    if p.len() > v.len() - i {
        return false;
    }
    let mut k: usize = 0;
    while k < p.len()
        invariant
            i + p.len() <= v.len(),
            k <= p.len(),
            forall|j: int| 0 <= j < k ==> v@[i + j] == p@[j],
        decreases p.len() - k,
    {
        if v[i + k] != p[k] {
            assert(v@.subrange(i as int, i + p.len())[k as int] != p@[k as int]);
            return false;
        }
        k = k + 1;
    }
    assert(v@.subrange(i as int, i + p.len()) =~= p@);
    true
}

/// Replaces every occurrence of `pattern` (not empty) in `text` by `with`, left to right.
pub fn replace_all(text: &str, pattern: &str, with: &str) -> (out: String)
    requires
        pattern@.len() > 0,
    ensures
        out@ == replaced(text@, pattern@, with@),
{
    let v = chars_of(text);
    let p = chars_of(pattern);
    let mut out = String::new();
    let mut i: usize = 0;
    proof {
        assert(v@.skip(0) =~= v@);
        assert(out@ + replaced(v@, p@, with@) =~= replaced(v@, p@, with@));
    }
    while i < v.len()
        invariant
            v@ == text@,
            p@ == pattern@,
            p.len() > 0,
            i <= v.len(),
            out@ + replaced(v@.skip(i as int), p@, with@) == replaced(text@, pattern@, with@),
        decreases v.len() - i,
    {
        let ghost rest = v@.skip(i as int);
        if window_matches(&v, i, &p) {
            proof {
                assert(rest.take(p.len() as int) =~= v@.subrange(i as int, i + p.len()));
                assert(rest.skip(p.len() as int) =~= v@.skip(i + p.len()));
                assert(out@ + with@ + replaced(v@.skip(i + p.len()), p@, with@) =~= out@ + (with@
                    + replaced(rest.skip(p.len() as int), p@, with@)));
            }
            out.append(with);
            i = i + p.len();
        } else {
            proof {
                if rest.len() >= p.len() {
                    assert(rest.take(p.len() as int) =~= v@.subrange(i as int, i + p.len()));
                }
                assert(rest.skip(1) =~= v@.skip(i + 1));
                assert(rest[0] == v@[i as int]);
                assert(out@.push(v@[i as int]) + replaced(v@.skip(i + 1), p@, with@) =~= out@ + (
                seq![rest[0]] + replaced(rest.skip(1), p@, with@)));
            }
            push_char(&mut out, v[i]);
            i = i + 1;
        }
    }
    assert(v@.skip(i as int) =~= Seq::<char>::empty());
    assert(out@ + Seq::<char>::empty() =~= out@);
    out
}

/// The workstation page: the template with its module placeholder replaced by the
/// base64 text of the module, then its build-note placeholder by the build note.
pub fn embed_wasm_html(template: &str, wasm_base64: &str) -> (html: String)
    ensures
        html@ == replaced(
            replaced(template@, "__WASM_BASE64__"@, wasm_base64@),
            "__BUILD_NOTE__"@,
            "standalone embedded Rust WASM"@,
        ),
{
    proof {
        reveal_strlit("__WASM_BASE64__");
        reveal_strlit("__BUILD_NOTE__");
    }
    let page = replace_all(template, "__WASM_BASE64__", wasm_base64);
    replace_all(page.as_str(), "__BUILD_NOTE__", "standalone embedded Rust WASM")
}

// ---------------------------------------------------------------------------
// The header of an HTTP response
// ---------------------------------------------------------------------------

/// The decimal digits of `n`, without leading zeros.
pub open spec fn decimal(n: nat) -> Seq<char>
    decreases n,
{
    if n < 10 {
        seq![(48 + n) as char]
    } else {
        decimal(n / 10) + seq![(48 + n % 10) as char]
    }
}

/// The decimal text of `n`.
pub fn decimal_text(n: usize) -> (s: String)
    ensures
        s@ == decimal(n as nat),
    decreases n,
{
    if n < 10 {
        let mut s = String::new();
        push_char(&mut s, ((48 + n) as u8) as char);
        assert(s@ =~= decimal(n as nat));
        s
    } else {
        let mut s = decimal_text(n / 10);
        push_char(&mut s, ((48 + n % 10) as u8) as char);
        assert(s@ =~= decimal(n as nat));
        s
    }
}

/// The header of a response with status line `status`, of type `content_type` and with
/// a body of `body_len` bytes, sent uncached on a connection that then closes.
pub fn response_header(status: &str, content_type: &str, body_len: usize) -> (h: String)
    ensures
        h@ == "HTTP/1.1 "@ + status@ + "\r\nContent-Type: "@ + content_type@
            + "\r\nContent-Length: "@ + decimal(body_len as nat)
            + "\r\nCache-Control: no-store\r\nConnection: close\r\n\r\n"@,
{
    let mut h = "HTTP/1.1 ".to_string();
    h.append(status);
    h.append("\r\nContent-Type: ");
    h.append(content_type);
    h.append("\r\nContent-Length: ");
    let n = decimal_text(body_len);
    h.append(n.as_str());
    h.append("\r\nCache-Control: no-store\r\nConnection: close\r\n\r\n");
    h
}

} // verus!
