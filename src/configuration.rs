use vstd::prelude::*;

verus! {

/// Relies on std::io::Error only as an opaque value that errors carry.
#[verifier::external_type_specification]
#[verifier::external_body]
pub struct ExIoError(std::io::Error);

/// Why the settings of the cache could not be had.
#[derive(Debug)]
pub enum ConfigurationError {
    HomeDirNotFound,
    DefaultConfigError(std::io::Error),
    ParseFailed,
    ReadFailed(std::io::Error),
}

/// The two settings the cache engine needs: where the cache lives and how
/// many bytes it may hold.
pub struct Configuration {
    pub cache_size_limit_in_bytes: u64,
    pub cache_path: String,
}

/// A character with the Unicode White_Space property, the set that
/// `char::is_whitespace` tests for.
pub open spec fn is_white_space(c: char) -> bool {
    ('\u{9}' <= c && c <= '\u{d}') || c == ' ' || c == '\u{85}' || c == '\u{a0}' || c
        == '\u{1680}' || ('\u{2000}' <= c && c <= '\u{200a}') || c == '\u{2028}' || c
        == '\u{2029}' || c == '\u{202f}' || c == '\u{205f}' || c == '\u{3000}'
}

fn white_space(c: char) -> (r: bool)
    ensures
        r == is_white_space(c),
{
    ('\u{9}' <= c && c <= '\u{d}') || c == ' ' || c == '\u{85}' || c == '\u{a0}' || c
        == '\u{1680}' || ('\u{2000}' <= c && c <= '\u{200a}') || c == '\u{2028}' || c
        == '\u{2029}' || c == '\u{202f}' || c == '\u{205f}' || c == '\u{3000}'
}

/// `s` without its leading white space.
pub open spec fn trim_start(s: Seq<char>) -> Seq<char>
    decreases s.len(),
{
    if s.len() > 0 && is_white_space(s[0]) {
        trim_start(s.drop_first())
    } else {
        s
    }
}

/// `s` without its trailing white space.
pub open spec fn trim_end(s: Seq<char>) -> Seq<char>
    decreases s.len(),
{
    if s.len() > 0 && is_white_space(s.last()) {
        trim_end(s.drop_last())
    } else {
        s
    }
}

/// `s` without white space at either end, as `str::trim` gives it.
pub open spec fn trim(s: Seq<char>) -> Seq<char> {
    trim_end(trim_start(s))
}

proof fn lemma_trim_start(s: Seq<char>, a: int)
    requires
        0 <= a <= s.len(),
        forall|k: int| 0 <= k < a ==> is_white_space(#[trigger] s[k]),
        a < s.len() ==> !is_white_space(s[a]),
    ensures
        trim_start(s) == s.subrange(a, s.len() as int),
    decreases a,
{
    if a == 0 {
        assert(s.subrange(0, s.len() as int) =~= s);
    } else {
        let t = s.drop_first();
        assert forall|k: int| 0 <= k < a - 1 implies is_white_space(#[trigger] t[k]) by {
            assert(t[k] == s[k + 1]);
        }
        lemma_trim_start(t, a - 1);
        assert(t.subrange(a - 1, t.len() as int) =~= s.subrange(a, s.len() as int));
    }
}

proof fn lemma_trim_end(s: Seq<char>, b: int)
    requires
        0 <= b <= s.len(),
        forall|k: int| b <= k < s.len() ==> is_white_space(#[trigger] s[k]),
        b > 0 ==> !is_white_space(s[b - 1]),
    ensures
        trim_end(s) == s.subrange(0, b),
    decreases s.len() - b,
{
    if b == s.len() {
        assert(s.subrange(0, b) =~= s);
    } else {
        let t = s.drop_last();
        assert forall|k: int| b <= k < t.len() implies is_white_space(#[trigger] t[k]) by {
            assert(t[k] == s[k]);
        }
        lemma_trim_end(t, b);
        assert(t.subrange(0, b) =~= s.subrange(0, b));
    }
}

/// Finds the part of `s[lo..hi]` that is left once white space is trimmed
/// from both ends.
fn trim_bounds(s: &str, lo: usize, hi: usize) -> (r: (usize, usize))
    requires
        lo <= hi <= s@.len(),
    ensures
        lo <= r.0 <= r.1 <= hi,
        trim(s@.subrange(lo as int, hi as int)) == s@.subrange(r.0 as int, r.1 as int),
{
    let ghost t = s@.subrange(lo as int, hi as int);
    let mut a: usize = lo;
    while a < hi && white_space(s.get_char(a))
        invariant
            lo <= a <= hi,
            hi <= s@.len(),
            forall|k: int| lo <= k < a ==> is_white_space(#[trigger] s@[k]),
        decreases hi - a,
    {
        a = a + 1;
    }
    let mut b: usize = hi;
    while b > a && white_space(s.get_char(b - 1))
        invariant
            a <= b <= hi,
            hi <= s@.len(),
            forall|k: int| b <= k < hi ==> is_white_space(#[trigger] s@[k]),
        decreases b - a,
    {
        b = b - 1;
    }
    proof {
        assert forall|k: int| 0 <= k < a - lo implies is_white_space(#[trigger] t[k]) by {
            assert(t[k] == s@[k + lo]);
        }
        lemma_trim_start(t, a - lo);
        let u = t.subrange(a - lo, t.len() as int);
        assert(u =~= s@.subrange(a as int, hi as int));
        assert forall|k: int| b - a <= k < u.len() implies is_white_space(#[trigger] u[k]) by {
            assert(u[k] == s@[k + a]);
        }
        lemma_trim_end(u, b - a);
        assert(u.subrange(0, b - a) =~= s@.subrange(a as int, b as int));
    }
    (a, b)
}

/// The index of the first `=` in `t`, where there is one.
pub open spec fn first_equals(t: Seq<char>) -> int {
    choose|i: int| 0 <= i < t.len() && t[i] == '=' && forall|k: int| 0 <= k < i ==> t[k] != '='
}

/// Tells whether two texts are equal, character by character.
pub fn same_text(a: &str, b: &str) -> (r: bool)
    ensures
        r == (a@ == b@),
{
    let n = a.unicode_len();
    if n != b.unicode_len() {
        return false;
    }
    let mut i: usize = 0;
    while i < n
        invariant
            n == a@.len(),
            n == b@.len(),
            i <= n,
            forall|k: int| 0 <= k < i ==> a@[k] == b@[k],
        decreases n - i,
    {
        if a.get_char(i) != b.get_char(i) {
            return false;
        }
        i = i + 1;
    }
    assert(a@ =~= b@);
    true
}

/// A character that may stand in the number of a size: a digit or a point.
pub open spec fn is_number_char(c: char) -> bool {
    ('0' <= c && c <= '9') || c == '.'
}

/// Where the unit of the size `s` starts: at its first character that is
/// neither a digit nor a point, where there is one.
pub open spec fn unit_start(s: Seq<char>) -> Option<int> {
    if exists|i: int| 0 <= i < s.len() && !is_number_char(s[i]) {
        Some(
            choose|i: int|
                0 <= i < s.len() && !is_number_char(s[i]) && forall|k: int|
                    0 <= k < i ==> is_number_char(s[k]),
        )
    } else {
        None
    }
}

/// The number and the unit that the size `s` is written with: the trimmed
/// text before the unit starts and the trimmed text from there on; a size
/// without a unit is in bytes.
pub open spec fn size_parts(s: Seq<char>) -> (Seq<char>, Seq<char>) {
    match unit_start(s) {
        Some(u) => (trim(s.subrange(0, u)), trim(s.subrange(u, s.len() as int))),
        None => (s, "B"@),
    }
}

fn number_char(c: char) -> (r: bool)
    ensures
        r == is_number_char(c),
{
    ('0' <= c && c <= '9') || c == '.'
}

/// Splits a size such as `16 GiB` into its number and its unit.
pub fn split_size(s: &str) -> (r: (String, String))
    ensures
        (r.0@, r.1@) == size_parts(s@),
{
    let n = s.unicode_len();
    let mut u: usize = 0;
    while u < n && number_char(s.get_char(u))
        invariant
            n == s@.len(),
            u <= n,
            forall|k: int| 0 <= k < u ==> is_number_char(#[trigger] s@[k]),
        decreases n - u,
    {
        u = u + 1;
    }
    if u == n {
        assert(!exists|i: int| 0 <= i < s@.len() && !is_number_char(s@[i]));
        return (String::from_str(s), String::from_str("B"));
    }
    proof {
        let c = choose|i: int|
            0 <= i < s@.len() && !is_number_char(s@[i]) && forall|k: int|
                0 <= k < i ==> is_number_char(s@[k]);
        assert(0 <= u < s@.len() && !is_number_char(s@[u as int]) && forall|k: int|
            0 <= k < u ==> is_number_char(s@[k]));
        if c < u {
            assert(is_number_char(s@[c]));
        }
        if c > u {
            assert(is_number_char(s@[u as int]));
        }
        assert(unit_start(s@) == Some(u as int));
    }
    let (a, b) = trim_bounds(s, 0, u);
    let (c, d) = trim_bounds(s, u, n);
    (String::from_str(s.substring_char(a, b)), String::from_str(s.substring_char(c, d)))
}

/// The bytes in a tebibyte.
pub const TIB: u64 = 1099511627776;
/// The bytes in a terabyte.
pub const TB: u64 = 1000000000000;
/// The bytes in a gibibyte.
pub const GIB: u64 = 1073741824;
/// The bytes in a gigabyte.
pub const GB: u64 = 1000000000;
/// The bytes in a mebibyte.
pub const MIB: u64 = 1048576;
/// The bytes in a megabyte.
pub const MB: u64 = 1000000;
/// The bytes in a kibibyte.
pub const KIB: u64 = 1024;
/// The bytes in a kilobyte.
pub const KB: u64 = 1000;

/// The bytes in one of a unit of size, for the units that sizes may be
/// written in.
pub open spec fn unit_bytes(unit: Seq<char>) -> Option<u64> {
    if unit == "TiB"@ {
        Some(TIB)
    } else if unit == "TB"@ {
        Some(TB)
    } else if unit == "GiB"@ {
        Some(GIB)
    } else if unit == "GB"@ {
        Some(GB)
    } else if unit == "MiB"@ {
        Some(MIB)
    } else if unit == "MB"@ {
        Some(MB)
    } else if unit == "KiB"@ {
        Some(KIB)
    } else if unit == "KB"@ {
        Some(KB)
    } else if unit == "B"@ {
        Some(1u64)
    } else {
        None
    }
}

/// The bytes in one `unit`, or `None` for a unit that is not known.
pub fn unit_multiplier(unit: &str) -> (r: Option<u64>)
    ensures
        r == unit_bytes(unit@),
{
    if same_text(unit, "TiB") {
        Some(TIB)
    } else if same_text(unit, "TB") {
        Some(TB)
    } else if same_text(unit, "GiB") {
        Some(GIB)
    } else if same_text(unit, "GB") {
        Some(GB)
    } else if same_text(unit, "MiB") {
        Some(MIB)
    } else if same_text(unit, "MB") {
        Some(MB)
    } else if same_text(unit, "KiB") {
        Some(KIB)
    } else if same_text(unit, "KB") {
        Some(KB)
    } else if same_text(unit, "B") {
        Some(1u64)
    } else {
        None
    }
}

/// The key and value that one line of a configuration file sets, if any:
/// a trimmed line that does not start with `#` and holds an `=` sets the
/// trimmed text before its first `=` to the trimmed text after it.
pub open spec fn line_setting(line: Seq<char>) -> Option<(Seq<char>, Seq<char>)> {
    let t = trim(line);
    if t.len() > 0 && t[0] == '#' {
        None
    } else if exists|i: int| 0 <= i < t.len() && t[i] == '=' {
        let e = first_equals(t);
        Some((trim(t.subrange(0, e)), trim(t.subrange(e + 1, t.len() as int))))
    } else {
        None
    }
}

/// The settings after one more line was read.
pub open spec fn apply_line(m: Map<Seq<char>, Seq<char>>, line: Seq<char>) -> Map<
    Seq<char>,
    Seq<char>,
> {
    match line_setting(line) {
        Some(kv) => m.insert(kv.0, kv.1),
        None => m,
    }
}

/// The settings of the complete lines of `s`, and the unfinished line that
/// follows them.
pub open spec fn scan_lines(s: Seq<char>) -> (Map<Seq<char>, Seq<char>>, Seq<char>)
    decreases s.len(),
{
    if s.len() == 0 {
        (Map::empty(), Seq::empty())
    } else {
        let (m, line) = scan_lines(s.drop_last());
        if s.last() == '\n' {
            (apply_line(m, line), Seq::empty())
        } else {
            (m, line.push(s.last()))
        }
    }
}

/// The settings that a configuration file `s` holds; where a key is set
/// twice, the later line wins.
pub open spec fn config_map(s: Seq<char>) -> Map<Seq<char>, Seq<char>> {
    let (m, line) = scan_lines(s);
    apply_line(m, line)
}

/// The settings that a list of distinct keys and their values stands for.
pub open spec fn settings_map(v: Seq<(String, String)>) -> Map<Seq<char>, Seq<char>>
    decreases v.len(),
{
    if v.len() == 0 {
        Map::empty()
    } else {
        settings_map(v.drop_last()).insert(v.last().0@, v.last().1@)
    }
}

/// No key stands twice in the list.
pub open spec fn keys_distinct(v: Seq<(String, String)>) -> bool {
    forall|i: int, j: int| 0 <= i < j < v.len() ==> #[trigger] v[i].0@ != #[trigger] v[j].0@
}

proof fn lemma_settings_map_contains(v: Seq<(String, String)>, i: int)
    requires
        0 <= i < v.len(),
        keys_distinct(v),
    ensures
        settings_map(v).contains_key(v[i].0@),
        settings_map(v)[v[i].0@] == v[i].1@,
    decreases v.len(),
{
    if i < v.len() - 1 {
        lemma_settings_map_contains(v.drop_last(), i);
    }
}

proof fn lemma_settings_map_absent(v: Seq<(String, String)>, key: Seq<char>)
    requires
        forall|i: int| 0 <= i < v.len() ==> #[trigger] v[i].0@ != key,
    ensures
        !settings_map(v).contains_key(key),
    decreases v.len(),
{
    if v.len() > 0 {
        lemma_settings_map_absent(v.drop_last(), key);
    }
}

proof fn lemma_settings_map_update(v: Seq<(String, String)>, i: int, kv: (String, String))
    requires
        0 <= i < v.len(),
        keys_distinct(v),
        kv.0@ == v[i].0@,
    ensures
        settings_map(v.update(i, kv)) == settings_map(v).insert(kv.0@, kv.1@),
    decreases v.len(),
{
    let w = v.update(i, kv);
    if i == v.len() - 1 {
        assert(w.drop_last() =~= v.drop_last());
        assert(settings_map(w) =~= settings_map(v).insert(kv.0@, kv.1@));
    } else {
        assert(w.drop_last() =~= v.drop_last().update(i, kv));
        lemma_settings_map_update(v.drop_last(), i, kv);
        assert(v.last().0@ != kv.0@);
        assert(settings_map(w) =~= settings_map(v).insert(kv.0@, kv.1@));
    }
}

/// Sets `key` to `val` in a list of distinct keys.
fn set_setting(v: &mut Vec<(String, String)>, key: String, val: String)
    requires
        keys_distinct(old(v)@),
    ensures
        keys_distinct(final(v)@),
        settings_map(final(v)@) == settings_map(old(v)@).insert(key@, val@),
{
    let mut i: usize = 0;
    while i < v.len()
        invariant
            v@ == old(v)@,
            keys_distinct(v@),
            i <= v@.len(),
            forall|k: int| 0 <= k < i ==> #[trigger] v@[k].0@ != key@,
        decreases v@.len() - i,
    {
        if v[i].0 == key {
            proof {
                lemma_settings_map_update(v@, i as int, (key, val));
            }
            let ghost before = v@;
            v[i] = (key, val);
            proof {
                assert(v@ == before.update(i as int, (key, val)));
                assert forall|a: int, b: int| 0 <= a < b < v@.len() implies #[trigger] v@[a].0@
                    != #[trigger] v@[b].0@ by {
                    assert(v@[a].0@ == before[a].0@);
                    assert(v@[b].0@ == before[b].0@);
                }
            }
            return;
        }
        i = i + 1;
    }
    let ghost before = v@;
    v.push((key, val));
    proof {
        assert(v@.drop_last() =~= before);
        assert forall|a: int, b: int| 0 <= a < b < v@.len() implies #[trigger] v@[a].0@
            != #[trigger] v@[b].0@ by {
            if b == before.len() {
                assert(v@[a] == before[a]);
            } else {
                assert(v@[a] == before[a]);
                assert(v@[b] == before[b]);
            }
        }
    }
}

/// Adds what the line `s[lo..hi]` sets to the settings read so far.
fn read_line(s: &str, lo: usize, hi: usize, settings: &mut Vec<(String, String)>)
    requires
        lo <= hi <= s@.len(),
        keys_distinct(old(settings)@),
    ensures
        keys_distinct(final(settings)@),
        settings_map(final(settings)@) == apply_line(
            settings_map(old(settings)@),
            s@.subrange(lo as int, hi as int),
        ),
{
    let ghost line = s@.subrange(lo as int, hi as int);
    let (a, b) = trim_bounds(s, lo, hi);
    let ghost t = s@.subrange(a as int, b as int);
    if a < b && s.get_char(a) == '#' {
        return;
    }
    let mut e: usize = a;
    while e < b && s.get_char(e) != '='
        invariant
            a <= e <= b,
            b <= s@.len(),
            forall|k: int| a <= k < e ==> #[trigger] s@[k] != '=',
        decreases b - e,
    {
        e = e + 1;
    }
    if e == b {
        proof {
            assert forall|i: int| 0 <= i < t.len() implies t[i] != '=' by {
                assert(t[i] == s@[a + i]);
            }
        }
        return;
    }
    proof {
        assert(t[e - a] == '=');
        let f = first_equals(t);
        assert(0 <= f < t.len() && t[f] == '=' && forall|k: int| 0 <= k < f ==> t[k] != '=');
        if f < e - a {
            assert(t[f] == s@[a + f]);
        }
        if f > e - a {
            assert(t[e - a] != '=');
        }
        assert(f == e - a);
    }
    let (ka, kb) = trim_bounds(s, a, e);
    let (va, vb) = trim_bounds(s, e + 1, b);
    proof {
        assert(t.subrange(0, e - a) =~= s@.subrange(a as int, e as int));
        assert(t.subrange(e - a + 1, t.len() as int) =~= s@.subrange(e + 1, b as int));
    }
    let key = String::from_str(s.substring_char(ka, kb));
    let val = String::from_str(s.substring_char(va, vb));
    set_setting(settings, key, val);
}

/// The key that sets the cache root.
pub const CACHE_PATH: &'static str = "cache_path";
/// The cache root where the configuration sets none.
pub const CACHE_PATH_DEFAULT: &'static str = "~/.cache/horst3";
/// The key that sets the budget.
pub const CACHE_SIZE_LIMIT: &'static str = "cache_size_limit";
/// The budget where the configuration sets none, as it is written.
pub const CACHE_SIZE_LIMIT_DEFAULT: &'static str = "16GiB";
/// The budget where the configuration sets none or one that cannot be read.
pub const CACHE_SIZE_LIMIT_DEFAULT_IN_BYTES: u64 = 17179869184;

/// The configuration file that is written where there is none: each key
/// with its default, one line each.
pub fn default_config_text() -> (r: String)
    ensures
        r@ == CACHE_PATH@ + " = "@ + CACHE_PATH_DEFAULT@ + "\n"@ + CACHE_SIZE_LIMIT@ + " = "@
            + CACHE_SIZE_LIMIT_DEFAULT@ + "\n"@,
{
    String::from_str(CACHE_PATH).concat(" = ").concat(CACHE_PATH_DEFAULT).concat("\n").concat(
        CACHE_SIZE_LIMIT,
    ).concat(" = ").concat(CACHE_SIZE_LIMIT_DEFAULT).concat("\n")
}

/// The value that the settings give `key`, or `default` where they give it
/// none.
pub fn setting_or<'a>(settings: &'a Vec<(String, String)>, key: &str, default: &'a str) -> (r: &'a str)
    requires
        keys_distinct(settings@),
    ensures
        settings_map(settings@).contains_key(key@) ==> r@ == settings_map(settings@)[key@],
        !settings_map(settings@).contains_key(key@) ==> r@ == default@,
{
    let mut i: usize = 0;
    while i < settings.len()
        invariant
            keys_distinct(settings@),
            i <= settings@.len(),
            forall|k: int| 0 <= k < i ==> #[trigger] settings@[k].0@ != key@,
        decreases settings@.len() - i,
    {
        if same_text(settings[i].0.as_str(), key) {
            proof {
                lemma_settings_map_contains(settings@, i as int);
            }
            return settings[i].1.as_str();
        }
        i = i + 1;
    }
    proof {
        lemma_settings_map_absent(settings@, key@);
    }
    default
}

impl Configuration {
    /// The configuration that parsed settings give: the cache root they set,
    /// or the default one; the budget read from the size they set, or the
    /// default budget where none could be read.
    pub fn from_settings(settings: &Vec<(String, String)>, size_in_bytes: Option<u64>) -> (r:
        Configuration)
        requires
            keys_distinct(settings@),
        ensures
            settings_map(settings@).contains_key(CACHE_PATH@) ==> r.cache_path@ == settings_map(
                settings@,
            )[CACHE_PATH@],
            !settings_map(settings@).contains_key(CACHE_PATH@) ==> r.cache_path@
                == CACHE_PATH_DEFAULT@,
            r.cache_size_limit_in_bytes == match size_in_bytes {
                Some(n) => n,
                None => CACHE_SIZE_LIMIT_DEFAULT_IN_BYTES,
            },
    {
        let cache_path = String::from_str(setting_or(settings, CACHE_PATH, CACHE_PATH_DEFAULT));
        let cache_size_limit_in_bytes = match size_in_bytes {
            Some(n) => n,
            None => CACHE_SIZE_LIMIT_DEFAULT_IN_BYTES,
        };
        Configuration { cache_size_limit_in_bytes, cache_path }
    }
}

/// Parses the contents of a configuration file.
///
/// Lines whose first non-white-space character is `#` are ignored. Lines
/// holding an `=` are read as `<key> = <value>` pairs; a key set twice
/// keeps the later value. The result holds each key once.
pub fn parse_config(s: &str) -> (r: Vec<(String, String)>)
    ensures
        keys_distinct(r@),
        settings_map(r@) == config_map(s@),
{
    let n = s.unicode_len();
    let mut settings: Vec<(String, String)> = Vec::new();
    let mut start: usize = 0;
    let mut i: usize = 0;
    while i < n
        invariant
            n == s@.len(),
            start <= i <= n,
            keys_distinct(settings@),
            scan_lines(s@.take(i as int)) == (
                settings_map(settings@),
                s@.subrange(start as int, i as int),
            ),
        decreases n - i,
    {
        proof {
            assert(s@.take(i + 1).drop_last() =~= s@.take(i as int));
        }
        if s.get_char(i) == '\n' {
            read_line(s, start, i, &mut settings);
            start = i + 1;
            proof {
                assert(s@.subrange(start as int, i + 1) =~= Seq::<char>::empty());
            }
        } else {
            proof {
                assert(s@.subrange(start as int, i + 1) =~= s@.subrange(
                    start as int,
                    i as int,
                ).push(s@[i as int]));
            }
        }
        i = i + 1;
    }
    proof {
        assert(s@.take(n as int) =~= s@);
    }
    read_line(s, start, n, &mut settings);
    settings
}

} // verus!
