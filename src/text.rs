//! Character-level rules: whitespace, trimming, comma-separated tag lists
//! and decimal timestamps.
use vstd::prelude::*;

verus! {

/// Whether `c` has the Unicode `White_Space` property.
pub open spec fn is_white_space(c: char) -> bool {
    let u = c as u32;
    ||| 9 <= u <= 13
    ||| u == 32
    ||| u == 0x85
    ||| u == 0xA0
    ||| u == 0x1680
    ||| 0x2000 <= u <= 0x200A
    ||| u == 0x2028
    ||| u == 0x2029
    ||| u == 0x202F
    ||| u == 0x205F
    ||| u == 0x3000
}

/// `s` without its leading whitespace.
pub open spec fn trim_start(s: Seq<char>) -> Seq<char>
    decreases s.len(),
{
    if s.len() > 0 && is_white_space(s[0]) {
        trim_start(s.drop_first())
    } else {
        s
    }
}

/// `s` without its trailing whitespace.
pub open spec fn trim_end(s: Seq<char>) -> Seq<char>
    decreases s.len(),
{
    if s.len() > 0 && is_white_space(s.last()) {
        trim_end(s.drop_last())
    } else {
        s
    }
}

/// `s` without leading or trailing whitespace.
pub open spec fn trimmed(s: Seq<char>) -> Seq<char> {
    trim_end(trim_start(s))
}

/// The pieces of `s` between commas, in order; a string without a comma is
/// one piece, and the empty string is one empty piece.
pub open spec fn split_commas(s: Seq<char>) -> Seq<Seq<char>>
    decreases s.len(),
{
    if s.len() == 0 {
        seq![Seq::empty()]
    } else {
        let p = split_commas(s.drop_last());
        if s.last() == ',' {
            p.push(Seq::empty())
        } else {
            p.update(p.len() - 1, p.last().push(s.last()))
        }
    }
}

/// What `str::to_lowercase` returns for `s`.
pub uninterp spec fn lower_of(s: Seq<char>) -> Seq<char>;

/// The tag that one piece of a tag list stands for.
pub open spec fn tag_of(piece: Seq<char>) -> Seq<char> {
    lower_of(trimmed(piece))
}

/// The tags of `pieces`: each piece trimmed and lower-cased, empty ones
/// dropped, and each tag kept at its first occurrence only.
pub open spec fn tag_list(pieces: Seq<Seq<char>>) -> Seq<Seq<char>>
    decreases pieces.len(),
{
    if pieces.len() == 0 {
        Seq::empty()
    } else {
        let r = tag_list(pieces.drop_last());
        let t = tag_of(pieces.last());
        if t.len() == 0 || r.contains(t) {
            r
        } else {
            r.push(t)
        }
    }
}

/// The normalised tag set of a comma-separated tags field, in order of first
/// occurrence.
pub open spec fn normalized_tags(s: Seq<char>) -> Seq<Seq<char>> {
    tag_list(split_commas(s))
}

/// The views of a list of strings.
pub open spec fn string_views(v: Seq<String>) -> Seq<Seq<char>> {
    v.map_values(|t: String| t@)
}

/// Decimal digit `d` as a character.
pub open spec fn digit_char(d: nat) -> char {
    if d == 0 { '0' }
    else if d == 1 { '1' }
    else if d == 2 { '2' }
    else if d == 3 { '3' }
    else if d == 4 { '4' }
    else if d == 5 { '5' }
    else if d == 6 { '6' }
    else if d == 7 { '7' }
    else if d == 8 { '8' }
    else { '9' }
}

/// The decimal notation of `n`, without leading zeros.
pub open spec fn decimal(n: nat) -> Seq<char>
    decreases n,
{
    if n < 10 {
        seq![digit_char(n)]
    } else {
        decimal(n / 10).push(digit_char(n % 10))
    }
}

/// A decimal notation has at least one digit.
pub proof fn lemma_decimal_nonempty(n: nat)
    ensures
        decimal(n).len() > 0,
    decreases n,
{
    if n >= 10 {
        lemma_decimal_nonempty(n / 10);
    }
}

/// Whether `c` is whitespace, as `char::is_whitespace` decides it.
pub fn white_space(c: char) -> (r: bool)
    ensures
        r == is_white_space(c),
{
    let u = c as u32;
    (9 <= u && u <= 13) || u == 32 || u == 0x85 || u == 0xA0 || u == 0x1680 || (0x2000 <= u
        && u <= 0x200A) || u == 0x2028 || u == 0x2029 || u == 0x202F || u == 0x205F || u
        == 0x3000
}

/// The characters of `s` between its leading and trailing whitespace.
pub fn trim_chars(s: &Vec<char>) -> (r: Vec<char>)
    ensures
        r@ == trimmed(s@),
{
    let n = s.len();
    let mut i: usize = 0;
    assert(s@.subrange(0, n as int) =~= s@);
    while i < n && white_space(s[i])
        invariant
            0 <= i <= n,
            n == s@.len(),
            trim_start(s@) == trim_start(s@.subrange(i as int, n as int)),
        decreases n - i,
    {
        assert(s@.subrange(i as int, n as int).drop_first() =~= s@.subrange(
            i as int + 1,
            n as int,
        ));
        i = i + 1;
    }
    assert(trim_start(s@) == s@.subrange(i as int, n as int));
    let mut j: usize = n;
    while j > i && white_space(s[j - 1])
        invariant
            i <= j <= n,
            n == s@.len(),
            trim_start(s@) == s@.subrange(i as int, n as int),
            trimmed(s@) == trim_end(s@.subrange(i as int, j as int)),
        decreases j,
    {
        assert(s@.subrange(i as int, j as int).drop_last() =~= s@.subrange(
            i as int,
            j as int - 1,
        ));
        j = j - 1;
    }
    let mut r: Vec<char> = Vec::new();
    let mut k: usize = i;
    while k < j
        invariant
            i <= k <= j <= n,
            n == s@.len(),
            r@ == s@.subrange(i as int, k as int),
        decreases j - k,
    {
        r.push(s[k]);
        assert(r@ =~= s@.subrange(i as int, k as int + 1));
        k = k + 1;
    }
    r
}

/// Relies on `str::chars`: the characters of `s` in order.
#[verifier::external_body]
fn chars_of(s: &str) -> (r: Vec<char>)
    ensures
        r@ == s@,
{
    s.chars().collect()
}

/// Relies on `String: FromIterator<&char>`: the string of the characters of `c`.
#[verifier::external_body]
fn string_from_chars(c: &Vec<char>) -> (r: String)
    ensures
        r@ == c@,
{
    c.iter().collect()
}

/// Relies on `str::to_lowercase`: the lower-case mapping of each character,
/// which depends on the characters alone.
#[verifier::external_body]
fn lowercase(s: &str) -> (r: String)
    ensures
        r@ == lower_of(s@),
{
    s.to_lowercase()
}

/// Adds the tag of `piece` to `tags` unless it is empty or already there.
fn add_tag(tags: &mut Vec<String>, piece: &Vec<char>)
    ensures
        string_views(final(tags)@) == ({
            let r = string_views(old(tags)@);
            let t = tag_of(piece@);
            if t.len() == 0 || r.contains(t) {
                r
            } else {
                r.push(t)
            }
        }),
{
    let trimmed_piece = trim_chars(piece);
    let ts = string_from_chars(&trimmed_piece);
    let t = lowercase(ts.as_str());
    if t.as_str().is_empty() {
        return;
    }
    let ghost r = string_views(tags@);
    let mut k: usize = 0;
    while k < tags.len()
        invariant
            0 <= k <= tags@.len(),
            r == string_views(tags@),
            t@ == tag_of(piece@),
            forall|m: int| 0 <= m < k ==> r[m] != t@,
        decreases tags@.len() - k,
    {
        if tags[k] == t {
            assert(r[k as int] == t@);
            return;
        }
        k = k + 1;
    }
    assert(!r.contains(t@));
    tags.push(t);
    assert(string_views(tags@) =~= r.push(t@));
}

/// The normalised tags of a comma-separated tags field: split on commas,
/// each piece trimmed and lower-cased, empty ones dropped, duplicates
/// dropped, in order of first occurrence.
pub fn normalize_tags(field: &str) -> (r: Vec<String>)
    ensures
        string_views(r@) == normalized_tags(field@),
{
    let s = chars_of(field);
    let n = s.len();
    let mut tags: Vec<String> = Vec::new();
    let mut cur: Vec<char> = Vec::new();
    let ghost mut done: Seq<Seq<char>> = Seq::empty();
    let mut i: usize = 0;
    assert(s@.take(0) =~= Seq::<char>::empty());
    assert(string_views(tags@) =~= Seq::<Seq<char>>::empty());
    while i < n
        invariant
            0 <= i <= n,
            n == s@.len(),
            s@ == field@,
            split_commas(s@.take(i as int)) == done.push(cur@),
            string_views(tags@) == tag_list(done),
        decreases n - i,
    {
        let c = s[i];
        assert(s@.take(i as int + 1).drop_last() =~= s@.take(i as int));
        if c == ',' {
            add_tag(&mut tags, &cur);
            proof {
                assert(done.push(cur@).drop_last() =~= done);
                done = done.push(cur@);
            }
            cur = Vec::new();
            assert(split_commas(s@.take(i as int + 1)) =~= done.push(cur@));
        } else {
            cur.push(c);
            assert(split_commas(s@.take(i as int + 1)) =~= done.push(cur@));
        }
        i = i + 1;
    }
    add_tag(&mut tags, &cur);
    assert(s@.take(n as int) =~= s@);
    assert(done.push(cur@).drop_last() =~= done);
    tags
}

/// Appends the decimal digits of `n` to `out`.
fn push_decimal(n: u64, out: &mut Vec<char>)
    ensures
        final(out)@ == old(out)@ + decimal(n as nat),
    decreases n,
{
    if n >= 10 {
        push_decimal(n / 10, out);
    }
    let d = n % 10;
    let c = if d == 0 { '0' }
        else if d == 1 { '1' }
        else if d == 2 { '2' }
        else if d == 3 { '3' }
        else if d == 4 { '4' }
        else if d == 5 { '5' }
        else if d == 6 { '6' }
        else if d == 7 { '7' }
        else if d == 8 { '8' }
        else { '9' };
    out.push(c);
    assert(out@ =~= old(out)@ + decimal(n as nat));
}

/// The decimal notation of `n`.
pub fn decimal_string(n: u64) -> (r: String)
    ensures
        r@ == decimal(n as nat),
{
    let mut out: Vec<char> = Vec::new();
    push_decimal(n, &mut out);
    assert(out@ =~= decimal(n as nat));
    string_from_chars(&out)
}

#[verifier::external_type_specification]
#[verifier::external_body]
pub struct ExSystemTime(std::time::SystemTime);

#[verifier::external_type_specification]
#[verifier::external_body]
pub struct ExSystemTimeError(std::time::SystemTimeError);

/// Relies on `std::time::SystemTime::now`: the system clock's time. Nothing
/// is known of it.
#[verifier::external_body]
fn system_now() -> (r: std::time::SystemTime) {
    std::time::SystemTime::now()
}

/// Relies on `std::time::SystemTime::duration_since`: the time elapsed from
/// the Unix epoch to `t`, or an error where `t` lies before it.
#[verifier::external_body]
fn since_epoch(t: &std::time::SystemTime) -> (r: Result<std::time::Duration, std::time::SystemTimeError>) {
    t.duration_since(std::time::UNIX_EPOCH)
}

/// Relies on `std::time::Duration::as_secs`: the whole seconds of `d`.
#[verifier::external_body]
fn whole_seconds(d: &std::time::Duration) -> (r: u64) {
    d.as_secs()
}

/// The whole seconds since the Unix epoch, zero for a clock set before it.
fn unix_seconds() -> (r: u64) {
    match since_epoch(&system_now()) {
        Ok(d) => whole_seconds(&d),
        Err(_) => 0,
    }
}

/// The current time as a timestamp: the decimal number of seconds since the
/// Unix epoch.
pub fn chrono_now() -> (r: String)
    ensures
        exists|n: nat| r@ == decimal(n),
        r@.len() > 0,
{
    let secs = unix_seconds();
    let r = decimal_string(secs);
    proof {
        lemma_decimal_nonempty(secs as nat);
    }
    r
}

/// Some piece of `pieces` stands for the tag `t`.
pub open spec fn tag_from_some(pieces: Seq<Seq<char>>, t: Seq<char>) -> bool {
    exists|j: int| 0 <= j < pieces.len() && tag_of(pieces[j]) == t
}

proof fn lemma_tag_list(pieces: Seq<Seq<char>>)
    ensures
        tag_list(pieces).no_duplicates(),
        forall|i: int| 0 <= i < tag_list(pieces).len() ==> (#[trigger] tag_list(pieces)[i]).len() > 0
            && tag_from_some(pieces, tag_list(pieces)[i]),
        forall|p: Seq<char>| pieces.contains(p) && tag_of(p).len() > 0 ==> tag_list(pieces).contains(#[trigger] tag_of(p)),
    decreases pieces.len(),
{
    if pieces.len() > 0 {
        let d = pieces.drop_last();
        let r = tag_list(d);
        let t = tag_of(pieces.last());
        lemma_tag_list(d);
        assert forall|i: int| 0 <= i < r.len() implies tag_from_some(pieces, #[trigger] r[i]) by {
            let j = choose|j: int| 0 <= j < d.len() && tag_of(d[j]) == r[i];
            assert(tag_of(pieces[j]) == r[i]);
        }
        assert(tag_of(pieces[pieces.len() - 1]) == t);
        assert forall|p: Seq<char>| pieces.contains(p) && tag_of(p).len() > 0 implies tag_list(pieces).contains(#[trigger] tag_of(p)) by {
            let j = choose|j: int| 0 <= j < pieces.len() && pieces[j] == p;
            if j < pieces.len() - 1 {
                assert(d[j] == p);
                assert(r.contains(tag_of(p)));
                if !(t.len() == 0 || r.contains(t)) {
                    let k = choose|k: int| 0 <= k < r.len() && r[k] == tag_of(p);
                    assert(r.push(t)[k] == tag_of(p));
                }
            } else {
                if !(t.len() == 0 || r.contains(t)) {
                    assert(r.push(t)[r.len() as int] == t);
                }
            }
        }
    }
}

/// The normalised tags of a tags field hold no duplicate and no empty tag;
/// each is the trimmed, lower-cased text of one of the comma-separated
/// pieces, and each such text that is not empty is among them.
pub proof fn lemma_tags_normalized(field: Seq<char>)
    ensures
        normalized_tags(field).no_duplicates(),
        forall|i: int| 0 <= i < normalized_tags(field).len() ==> (#[trigger] normalized_tags(field)[i]).len() > 0
            && tag_from_some(split_commas(field), normalized_tags(field)[i]),
        forall|p: Seq<char>| split_commas(field).contains(p) && tag_of(p).len() > 0 ==> normalized_tags(field).contains(
            #[trigger] tag_of(p),
        ),
{
    lemma_tag_list(split_commas(field));
}

} // verus!
