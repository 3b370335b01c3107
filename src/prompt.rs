//! Rendering of prompt templates: the placeholders `{date}`, `{time}` and
//! `{datetime}` stand for the execution time.

use vstd::prelude::*;

use crate::schedule::is_instant;

verus! {

/// The UTC time `secs` written as `YYYY-MM-DD HH:MM:SS`.
pub uninterp spec fn utc_text(secs: int) -> Seq<char>;

/// Relies on chrono's `DateTime::<Utc>::from_timestamp` and `DateTime::format`
/// with the pattern `%Y-%m-%d %H:%M:%S`: for the years 1970 to 9999 the
/// pattern gives four year digits and two digits for each other field.
#[verifier::external_body]
fn utc_datetime_text(secs: i64) -> (r: String)
    requires
        is_instant(secs as int),
    ensures
        r@ == utc_text(secs as int),
        r@.len() == 19,
{
    match chrono::DateTime::from_timestamp(secs, 0) {
        Some(t) => t.format("%Y-%m-%d %H:%M:%S").to_string(),
        None => String::new(),
    }
}

pub open spec fn date_placeholder() -> Seq<char> {
    seq!['{', 'd', 'a', 't', 'e', '}']
}

pub open spec fn time_placeholder() -> Seq<char> {
    seq!['{', 't', 'i', 'm', 'e', '}']
}

pub open spec fn datetime_placeholder() -> Seq<char> {
    seq!['{', 'd', 'a', 't', 'e', 't', 'i', 'm', 'e', '}']
}

pub open spec fn starts_with(s: Seq<char>, p: Seq<char>) -> bool {
    p.len() <= s.len() && s.subrange(0, p.len() as int) == p
}

/// `t` with each placeholder replaced by its text.
pub open spec fn render_text(
    t: Seq<char>,
    date: Seq<char>,
    time: Seq<char>,
    datetime: Seq<char>,
) -> Seq<char>
    decreases t.len(),
{
    if t.len() == 0 {
        Seq::empty()
    } else if starts_with(t, date_placeholder()) {
        date + render_text(t.skip(6), date, time, datetime)
    } else if starts_with(t, time_placeholder()) {
        time + render_text(t.skip(6), date, time, datetime)
    } else if starts_with(t, datetime_placeholder()) {
        datetime + render_text(t.skip(10), date, time, datetime)
    } else {
        seq![t[0]] + render_text(t.skip(1), date, time, datetime)
    }
}

/// The prompt that `template` gives at `now`: `{date}` becomes the ISO date,
/// `{time}` the 24-hour time and `{datetime}` both, separated by a space.
pub open spec fn rendered_prompt(template: Seq<char>, now: int) -> Seq<char> {
    let stamp = utc_text(now);
    render_text(template, stamp.subrange(0, 10), stamp.subrange(11, 19), stamp)
}

/// Whether `pat` occurs in `s` at position `i`.
fn occurs_at(s: &str, len: usize, i: usize, pat: &str) -> (r: bool)
    requires
        len == s@.len(),
        i <= len,
    ensures
        r == starts_with(s@.skip(i as int), pat@),
{
    let plen = pat.unicode_len();
    if plen > len - i {
        return false;
    }
    let part = s.substring_char(i, i + plen).to_owned();
    let whole = pat.to_owned();
    assert(s@.skip(i as int).subrange(0, plen as int) =~= s@.subrange(i as int, i + plen));
    part == whole
}

/// Renders `template` for an execution at `now`.
pub fn render_prompt(template: &str, now: i64) -> (r: String)
    requires
        is_instant(now as int),
    ensures
        r@ == rendered_prompt(template@, now as int),
{
    let stamp = utc_datetime_text(now);
    let date = stamp.as_str().substring_char(0, 10);
    let time = stamp.as_str().substring_char(11, 19);
    fill_template(template, date, time, stamp.as_str())
}

/// Replaces each placeholder of `template` by its text.
pub fn fill_template(template: &str, date: &str, time: &str, datetime: &str) -> (r: String)
    ensures
        r@ == render_text(template@, date@, time@, datetime@),
{
    let ghost d = date@;
    let ghost tm = time@;
    let ghost dt = datetime@;
    let len = template.unicode_len();
    let mut out = String::new();
    let mut i: usize = 0;
    proof {
        reveal_strlit("{date}");
        reveal_strlit("{time}");
        reveal_strlit("{datetime}");
        assert("{date}"@ =~= date_placeholder());
        assert("{time}"@ =~= time_placeholder());
        assert("{datetime}"@ =~= datetime_placeholder());
        assert(template@.skip(0) =~= template@);
    }
    while i < len
        invariant
            len == template@.len(),
            0 <= i <= len,
            date@ == d,
            time@ == tm,
            datetime@ == dt,
            "{date}"@ == date_placeholder(),
            "{time}"@ == time_placeholder(),
            "{datetime}"@ == datetime_placeholder(),
            out@ + render_text(template@.skip(i as int), d, tm, dt) == render_text(
                template@,
                d,
                tm,
                dt,
            ),
        decreases len - i,
    {
        let ghost rest = template@.skip(i as int);
        let ghost prev = out@;
        assert(rest.len() > 0);
        if occurs_at(template, len, i, "{date}") {
            out.append(date);
            assert(rest.skip(6) =~= template@.skip(i + 6));
            assert(render_text(rest, d, tm, dt) == d + render_text(rest.skip(6), d, tm, dt));
            let ghost x = render_text(rest.skip(6), d, tm, dt);
            assert(out@ == prev + d);
            assert((prev + d) + x =~= prev + (d + x));
            i = i + 6;
        } else if occurs_at(template, len, i, "{time}") {
            out.append(time);
            assert(rest.skip(6) =~= template@.skip(i + 6));
            assert(render_text(rest, d, tm, dt) == tm + render_text(rest.skip(6), d, tm, dt));
            let ghost x = render_text(rest.skip(6), d, tm, dt);
            assert(out@ == prev + tm);
            assert((prev + tm) + x =~= prev + (tm + x));
            i = i + 6;
        } else if occurs_at(template, len, i, "{datetime}") {
            out.append(datetime);
            assert(rest.skip(10) =~= template@.skip(i + 10));
            assert(render_text(rest, d, tm, dt) == dt + render_text(rest.skip(10), d, tm, dt));
            let ghost x = render_text(rest.skip(10), d, tm, dt);
            assert(out@ == prev + dt);
            assert((prev + dt) + x =~= prev + (dt + x));
            i = i + 10;
        } else {
            out.append(template.substring_char(i, i + 1));
            assert(rest.skip(1) =~= template@.skip(i + 1));
            assert(template@.subrange(i as int, i + 1) =~= seq![rest[0]]);
            assert(render_text(rest, d, tm, dt) == seq![rest[0]] + render_text(
                rest.skip(1),
                d,
                tm,
                dt,
            ));
            let ghost x = render_text(rest.skip(1), d, tm, dt);
            assert(out@ == prev + seq![rest[0]]);
            assert((prev + seq![rest[0]]) + x =~= prev + (seq![rest[0]] + x));
            i = i + 1;
        }
        assert(out@ + render_text(template@.skip(i as int), d, tm, dt) =~= prev + render_text(
            rest,
            d,
            tm,
            dt,
        ));
    }
    proof {
        assert(template@.skip(len as int) =~= Seq::<char>::empty());
        assert(out@ + Seq::<char>::empty() =~= out@);
    }
    out
}

} // verus!
