//! The placeholder engine: expands `{NAME}`-style placeholders inside
//! task text.  A replacer holds name-to-value bindings; the default
//! bindings are the clock macros, sampled from the calendar collaborator
//! when the replacer is made.  Environment-derived values (host, system
//! or network facts) are registered by the embedding program through
//! [`MacroReplacer::register_macro`].
//!
//! Replacement applies the bindings in registration order, each
//! replacing every occurrence of its `{NAME}` pattern left to right.

use vstd::prelude::*;
use crate::strutil::{spec_replace_all, replace_all, has_substring, contains_str};
use crate::timefmt::{
    spec_date_string, date_string, spec_time_string, time_string, spec_year, year_str, spec_pad2,
    pad2, spec_compact_stamp, compact_stamp, spec_weekday_en, weekday_en, spec_short_date,
    short_date_string, spec_weekday_cn, weekday_cn, spec_date_cn, date_cn_string, spec_time12,
    time12_string, spec_i64_dec, i64_dec, spec_iso_datetime, iso_datetime_string, spec_month_day,
    month_day_string, spec_hour_minute, hour_minute_string,
};
use crate::bridge::{NowParts, now_parts};

verus! {

/// The `{NAME}` pattern of a macro name.
pub open spec fn brace(name: Seq<char>) -> Seq<char> {
    seq!['{'] + name + seq!['}']
}

/// The value bound to the first binding of a name, if any.
pub open spec fn spec_binding_value(bs: Seq<(String, String)>, name: Seq<char>) -> Option<
    Seq<char>,
>
    decreases bs.len(),
{
    if bs.len() == 0 {
        None
    } else if bs[0].0@ == name {
        Some(bs[0].1@)
    } else {
        spec_binding_value(bs.drop_first(), name)
    }
}

/// The result of expanding every binding in order, each replacing all
/// occurrences of its pattern.
pub open spec fn apply_bindings(bs: Seq<(String, String)>, s: Seq<char>) -> Seq<char>
    decreases bs.len(),
{
    if bs.len() == 0 {
        s
    } else {
        apply_bindings(bs.drop_first(), spec_replace_all(s, brace(bs[0].0@), bs[0].1@))
    }
}

/// Whether any binding's pattern occurs in the text.
pub open spec fn any_pattern_in(bs: Seq<(String, String)>, s: Seq<char>) -> bool {
    exists|i: int| 0 <= i < bs.len() && has_substring(s, brace((#[trigger] bs[i]).0@))
}

/// The names of the bindings whose pattern occurs in the text, in
/// registration order.
pub open spec fn spec_used_names(bs: Seq<(String, String)>, s: Seq<char>) -> Seq<String>
    decreases bs.len(),
{
    if bs.len() == 0 {
        Seq::empty()
    } else {
        (if has_substring(s, brace(bs[0].0@)) {
            seq![bs[0].0]
        } else {
            Seq::empty()
        }) + spec_used_names(bs.drop_first(), s)
    }
}

/// A text-macro replacer: named placeholder values applied to text.
pub struct MacroReplacer {
    /// Name-to-value bindings, in registration order; a re-registered
    /// name keeps its place with the new value.
    pub bindings: Vec<(String, String)>,
}

/// Replaces the value of a name's first binding, or appends a binding.
fn upsert_binding(bs: &mut Vec<(String, String)>, name: String, value: String)
    ensures
        spec_binding_value(final(bs)@, name@) == Some(value@),
        forall|d: Seq<char>|
            d != name@ ==> #[trigger] spec_binding_value(final(bs)@, d) == spec_binding_value(
                old(bs)@,
                d,
            ),
        final(bs)@.len() == old(bs)@.len() || final(bs)@.len() == old(bs)@.len() + 1,
{
    let ghost orig = bs@;
    let mut i: usize = 0;
    while i < bs.len()
        invariant
            orig == bs@,
            orig == old(bs)@,
            i <= orig.len(),
            forall|k: int| 0 <= k < i ==> (#[trigger] orig[k]).0@ != name@,
        decreases orig.len() - i,
    {
        if crate::strutil::str_eq(bs[i].0.as_str(), name.as_str()) {
            let ghost j = i as int;
            let ghost nv = name@;
            let ghost vv = value@;
            bs[i] = (name, value);
            proof {
                lemma_binding_update(orig, bs@, j, nv, vv);
            }
            return ;
        }
        i = i + 1;
    }
    ks_push(bs, name, value);
    proof {
        lemma_binding_append(orig, bs@);
    }
}

/// Appends one binding.
fn ks_push(bs: &mut Vec<(String, String)>, name: String, value: String)
    ensures
        final(bs)@ == old(bs)@.push((name, value)),
{
    bs.push((name, value));
}

proof fn lemma_binding_update(
    orig: Seq<(String, String)>,
    upd: Seq<(String, String)>,
    j: int,
    name: Seq<char>,
    value: Seq<char>,
)
    requires
        0 <= j < orig.len(),
        orig[j].0@ == name,
        forall|k: int| 0 <= k < j ==> (#[trigger] orig[k]).0@ != name,
        upd.len() == orig.len(),
        upd[j].0@ == name,
        upd[j].1@ == value,
        forall|k: int| 0 <= k < orig.len() && k != j ==> upd[k] == orig[k],
    ensures
        spec_binding_value(upd, name) == Some(value),
        forall|d: Seq<char>|
            d != name ==> #[trigger] spec_binding_value(upd, d) == spec_binding_value(orig, d),
    decreases orig.len(),
{
    reveal_with_fuel(spec_binding_value, 3);
    if j == 0 {
        assert forall|d: Seq<char>| d != name implies #[trigger] spec_binding_value(upd, d)
            == spec_binding_value(orig, d) by {
            assert(upd.drop_first() =~= orig.drop_first());
        }
    } else {
        assert(upd[0] == orig[0]);
        assert(upd.drop_first()[j - 1].0@ == name);
        assert forall|k: int| 0 <= k < j - 1 implies (#[trigger] orig.drop_first()[k]).0@
            != name by {
            assert(orig.drop_first()[k] == orig[k + 1]);
        }
        assert forall|k: int|
            0 <= k < orig.drop_first().len() && k != j - 1 implies #[trigger] upd.drop_first()[k]
            == orig.drop_first()[k] by {
            assert(upd.drop_first()[k] == upd[k + 1]);
            assert(orig.drop_first()[k] == orig[k + 1]);
        }
        lemma_binding_update(orig.drop_first(), upd.drop_first(), j - 1, name, value);
        assert(orig[0].0@ != name);
        assert forall|d: Seq<char>| d != name implies #[trigger] spec_binding_value(upd, d)
            == spec_binding_value(orig, d) by {
            if upd[0].0@ != d {
                assert(spec_binding_value(upd, d) == spec_binding_value(upd.drop_first(), d));
                assert(spec_binding_value(orig, d) == spec_binding_value(orig.drop_first(), d));
            }
        }
        assert(spec_binding_value(upd, name) == Some(value));
    }
}

proof fn lemma_binding_append(orig: Seq<(String, String)>, pushed: Seq<(String, String)>)
    requires
        pushed.len() == orig.len() + 1,
        forall|k: int| 0 <= k < orig.len() ==> #[trigger] pushed[k] == orig[k],
        forall|k: int| 0 <= k < orig.len() ==> (#[trigger] orig[k]).0@ != pushed.last().0@,
    ensures
        spec_binding_value(pushed, pushed.last().0@) == Some(pushed.last().1@),
        forall|d: Seq<char>|
            d != pushed.last().0@ ==> #[trigger] spec_binding_value(pushed, d)
                == spec_binding_value(orig, d),
    decreases orig.len(),
{
    reveal_with_fuel(spec_binding_value, 3);
    let name = pushed.last().0@;
    if orig.len() == 0 {
        assert(pushed[0] == pushed.last());
        assert forall|d: Seq<char>| d != name implies #[trigger] spec_binding_value(pushed, d)
            == spec_binding_value(orig, d) by {
            assert(pushed.drop_first() =~= Seq::<(String, String)>::empty());
            assert(spec_binding_value(pushed, d) == spec_binding_value(pushed.drop_first(), d));
        }
    } else {
        assert(pushed[0] == orig[0]);
        assert(pushed.drop_first().len() == orig.drop_first().len() + 1);
        assert forall|k: int|
            0 <= k < orig.drop_first().len() implies #[trigger] pushed.drop_first()[k]
            == orig.drop_first()[k] by {
            assert(pushed.drop_first()[k] == pushed[k + 1]);
        }
        assert(pushed.drop_first().last() == pushed.last());
        assert forall|k: int|
            0 <= k < orig.drop_first().len() implies (#[trigger] orig.drop_first()[k]).0@
            != name by {
            assert(orig.drop_first()[k] == orig[k + 1]);
        }
        lemma_binding_append(orig.drop_first(), pushed.drop_first());
        assert forall|d: Seq<char>| d != name implies #[trigger] spec_binding_value(pushed, d)
            == spec_binding_value(orig, d) by {
            if pushed[0].0@ != d {
                assert(spec_binding_value(pushed, d) == spec_binding_value(pushed.drop_first(), d));
                assert(spec_binding_value(orig, d) == spec_binding_value(orig.drop_first(), d));
            }
        }
        assert(spec_binding_value(pushed, name) == Some(pushed.last().1@));
    }
}

impl MacroReplacer {
    /// A replacer with no bindings.
    pub fn empty() -> (r: MacroReplacer)
        ensures
            r.bindings@.len() == 0,
    {
        MacroReplacer { bindings: Vec::new() }
    }

    /// A replacer holding the default clock macros, sampled from the
    /// calendar collaborator now.
    pub fn new() -> (r: MacroReplacer)
        ensures
            exists|p: NowParts| #[trigger] default_bindings_match(r.bindings@, p),
    {
        let parts = now_parts();
        let ghost pg = parts;
        let r = Self::with_clock(parts);
        proof {
            assert(default_bindings_match(r.bindings@, pg));
        }
        r
    }

    /// A replacer holding the default clock macros of the given instant.
    pub fn with_clock(p: NowParts) -> (r: MacroReplacer)
        requires
            1 <= p.month <= 12,
            1 <= p.day <= 31,
            p.hour <= 23,
            p.minute <= 59,
            p.second <= 59,
            p.weekday_from_monday <= 6,
            -86400 < p.utc_offset_seconds < 86400,
        ensures
            default_bindings_match(r.bindings@, p),
    {
        let mut bs: Vec<(String, String)> = Vec::new();
        bs.push((String::from_str("DATE"), date_string(p.year, p.month, p.day)));
        bs.push((String::from_str("TIME"), time_string(p.hour, p.minute, p.second)));
        bs.push((String::from_str("YEAR"), year_str(p.year)));
        bs.push((String::from_str("MONTH"), pad2(p.month)));
        bs.push((String::from_str("DAY"), pad2(p.day)));
        bs.push((String::from_str("HOUR"), pad2(p.hour)));
        bs.push((String::from_str("MINUTE"), pad2(p.minute)));
        bs.push((String::from_str("SECOND"), pad2(p.second)));
        bs.push((
            String::from_str("TIMESTAMP"),
            compact_stamp(p.year, p.month, p.day, p.hour, p.minute, p.second),
        ));
        bs.push((String::from_str("WEEKDAY"), weekday_en(p.weekday_from_monday)));
        bs.push((String::from_str("SHORT_DATE"), short_date_string(p.year, p.month, p.day)));
        bs.push((String::from_str("WEEKDAY_CN"), weekday_cn(p.weekday_from_monday)));
        bs.push((String::from_str("DATE_CN"), date_cn_string(p.year, p.month, p.day)));
        bs.push((String::from_str("TIME_12"), time12_string(p.hour, p.minute, p.second)));
        bs.push((String::from_str("UNIX_TIMESTAMP"), i64_dec(p.unix_seconds)));
        bs.push((String::from_str("UNIX_TIMESTAMP_MS"), i64_dec(p.unix_millis)));
        bs.push((
            String::from_str("ISO_DATETIME"),
            iso_datetime_string(
                p.year,
                p.month,
                p.day,
                p.hour,
                p.minute,
                p.second,
                p.utc_offset_seconds,
            ),
        ));
        bs.push((String::from_str("MONTH_DAY"), month_day_string(p.month, p.day)));
        bs.push((String::from_str("HOUR_MINUTE"), hour_minute_string(p.hour, p.minute)));
        MacroReplacer { bindings: bs }
    }

    /// Registers (or re-registers) a macro under a name; `{name}` in a
    /// text will expand to the value.
    pub fn register_macro(&mut self, name: &str, value: String)
        ensures
            spec_binding_value(final(self).bindings@, name@) == Some(value@),
            forall|d: Seq<char>|
                d != name@ ==> #[trigger] spec_binding_value(final(self).bindings@, d)
                    == spec_binding_value(old(self).bindings@, d),
    {
        upsert_binding(&mut self.bindings, name.to_owned(), value);
    }

    /// Replaces every binding's `{NAME}` pattern in the text by its
    /// value, in registration order.
    pub fn replace(&self, text: &str) -> (r: String)
        ensures
            r@ == apply_bindings(self.bindings@, text@),
    {
        let ghost bs = self.bindings@;
        let mut cur = text.to_owned();
        let mut i: usize = 0;
        proof {
            assert(bs.skip(0) =~= bs);
        }
        while i < self.bindings.len()
            invariant
                bs == self.bindings@,
                i <= bs.len(),
                apply_bindings(bs, text@) == apply_bindings(bs.skip(i as int), cur@),
            decreases bs.len() - i,
        {
            proof {
                let tail = bs.skip(i as int);
                assert(tail[0] == bs[i as int]);
                assert(tail.drop_first() =~= bs.skip(i as int + 1));
            }
            let pat = brace_pattern(self.bindings[i].0.as_str());
            cur = replace_all(cur.as_str(), pat.as_str(), self.bindings[i].1.as_str());
            i = i + 1;
        }
        proof {
            assert(bs.skip(bs.len() as int) =~= Seq::<(String, String)>::empty());
        }
        cur
    }

    /// Whether the text holds any registered macro's pattern.
    pub fn contains_macros(&self, text: &str) -> (r: bool)
        ensures
            r == any_pattern_in(self.bindings@, text@),
    {
        let n = self.bindings.len();
        let mut i: usize = 0;
        while i < n
            invariant
                n == self.bindings@.len(),
                i <= n,
                forall|k: int|
                    0 <= k < i ==> !has_substring(text@, brace((#[trigger] self.bindings@[k]).0@)),
            decreases n - i,
        {
            let pat = brace_pattern(self.bindings[i].0.as_str());
            if contains_str(text, pat.as_str()) {
                return true;
            }
            i = i + 1;
        }
        false
    }

    /// The names whose pattern occurs in the text, in registration
    /// order.
    pub fn extract_used_macros(&self, text: &str) -> (r: Vec<String>)
        ensures
            r@ == spec_used_names(self.bindings@, text@),
    {
        let ghost bs = self.bindings@;
        let ghost full = spec_used_names(bs, text@);
        let mut out: Vec<String> = Vec::new();
        let mut i: usize = 0;
        proof {
            assert(bs.skip(0) =~= bs);
            assert(out@ + spec_used_names(bs.skip(0), text@) =~= full);
        }
        while i < self.bindings.len()
            invariant
                bs == self.bindings@,
                i <= bs.len(),
                full == spec_used_names(bs, text@),
                out@ + spec_used_names(bs.skip(i as int), text@) =~= full,
            decreases bs.len() - i,
        {
            proof {
                let tail = bs.skip(i as int);
                assert(tail[0] == bs[i as int]);
                assert(tail.drop_first() =~= bs.skip(i as int + 1));
            }
            let pat = brace_pattern(self.bindings[i].0.as_str());
            if contains_str(text, pat.as_str()) {
                out.push(self.bindings[i].0.clone());
                proof {
                    assert(out@ =~= out@.drop_last() + seq![bs[i as int].0]);
                }
            }
            i = i + 1;
        }
        proof {
            assert(bs.skip(bs.len() as int) =~= Seq::<(String, String)>::empty());
            assert(out@ + Seq::<String>::empty() =~= out@);
        }
        out
    }

    /// Every registered macro name, in registration order.
    pub fn list_macros(&self) -> (r: Vec<String>)
        ensures
            r@.len() == self.bindings@.len(),
            forall|i: int| 0 <= i < r@.len() ==> #[trigger] r@[i] == self.bindings@[i].0,
    {
        let mut out: Vec<String> = Vec::new();
        let mut i: usize = 0;
        while i < self.bindings.len()
            invariant
                i <= self.bindings@.len(),
                out@.len() == i,
                forall|k: int| 0 <= k < i ==> #[trigger] out@[k] == self.bindings@[k].0,
            decreases self.bindings@.len() - i,
        {
            out.push(self.bindings[i].0.clone());
            i = i + 1;
        }
        out
    }

    /// The current value of one macro, if it is registered.
    pub fn get_macro_value(&self, macro_name: &str) -> (r: Option<String>)
        ensures
            match r {
                Some(v) => spec_binding_value(self.bindings@, macro_name@) == Some(v@),
                None => spec_binding_value(self.bindings@, macro_name@) is None,
            },
    {
        let mut i: usize = 0;
        proof {
            assert(self.bindings@.skip(0) =~= self.bindings@);
        }
        while i < self.bindings.len()
            invariant
                i <= self.bindings@.len(),
                spec_binding_value(self.bindings@, macro_name@) == spec_binding_value(
                    self.bindings@.skip(i as int),
                    macro_name@,
                ),
            decreases self.bindings@.len() - i,
        {
            proof {
                let tail = self.bindings@.skip(i as int);
                assert(tail[0] == self.bindings@[i as int]);
                assert(tail.drop_first() =~= self.bindings@.skip(i as int + 1));
            }
            if crate::strutil::str_eq(self.bindings[i].0.as_str(), macro_name) {
                return Some(self.bindings[i].1.clone());
            }
            i = i + 1;
        }
        proof {
            assert(self.bindings@.skip(self.bindings@.len() as int) =~= Seq::<(
                String,
                String,
            )>::empty());
        }
        None
    }
}


impl Default for MacroReplacer {
    /// The default replacer carries the default clock macros.
    fn default() -> (r: MacroReplacer)
        ensures
            exists|p: NowParts| #[trigger] default_bindings_match(r.bindings@, p),
    {
        MacroReplacer::new()
    }
}

/// The `{NAME}` pattern of a name, as text.
fn brace_pattern(name: &str) -> (r: String)
    ensures
        r@ == brace(name@),
{
    proof {
        reveal_strlit("{");
        reveal_strlit("}");
    }
    let mut out = String::new();
    out.append("{");
    out.append(name);
    out.append("}");
    proof {
        assert(out@ =~= brace(name@));
    }
    out
}

/// Whether the bindings are exactly the nineteen default clock macros of
/// the instant `p`, in order.
pub open spec fn default_bindings_match(bs: Seq<(String, String)>, p: NowParts) -> bool {
    let y = p.year as int;
    let m = p.month as int;
    let d = p.day as int;
    let h = p.hour as int;
    let mi = p.minute as int;
    let s = p.second as int;
    let w = p.weekday_from_monday as int;
    &&& bs.len() == 19
    &&& bs[0].0@ == "DATE"@ && bs[0].1@ == spec_date_string(y, m, d)
    &&& bs[1].0@ == "TIME"@ && bs[1].1@ == spec_time_string(h, mi, s)
    &&& bs[2].0@ == "YEAR"@ && bs[2].1@ == spec_year(y)
    &&& bs[3].0@ == "MONTH"@ && bs[3].1@ == spec_pad2(m)
    &&& bs[4].0@ == "DAY"@ && bs[4].1@ == spec_pad2(d)
    &&& bs[5].0@ == "HOUR"@ && bs[5].1@ == spec_pad2(h)
    &&& bs[6].0@ == "MINUTE"@ && bs[6].1@ == spec_pad2(mi)
    &&& bs[7].0@ == "SECOND"@ && bs[7].1@ == spec_pad2(s)
    &&& bs[8].0@ == "TIMESTAMP"@ && bs[8].1@ == spec_compact_stamp(y, m, d, h, mi, s)
    &&& bs[9].0@ == "WEEKDAY"@ && bs[9].1@ == spec_weekday_en(w)
    &&& bs[10].0@ == "SHORT_DATE"@ && bs[10].1@ == spec_short_date(y, m, d)
    &&& bs[11].0@ == "WEEKDAY_CN"@ && bs[11].1@ == spec_weekday_cn(w)
    &&& bs[12].0@ == "DATE_CN"@ && bs[12].1@ == spec_date_cn(y, m, d)
    &&& bs[13].0@ == "TIME_12"@ && bs[13].1@ == spec_time12(h, mi, s)
    &&& bs[14].0@ == "UNIX_TIMESTAMP"@ && bs[14].1@ == spec_i64_dec(p.unix_seconds as int)
    &&& bs[15].0@ == "UNIX_TIMESTAMP_MS"@ && bs[15].1@ == spec_i64_dec(p.unix_millis as int)
    &&& bs[16].0@ == "ISO_DATETIME"@ && bs[16].1@ == spec_iso_datetime(
        y,
        m,
        d,
        h,
        mi,
        s,
        p.utc_offset_seconds as int,
    )
    &&& bs[17].0@ == "MONTH_DAY"@ && bs[17].1@ == spec_month_day(m, d)
    &&& bs[18].0@ == "HOUR_MINUTE"@ && bs[18].1@ == spec_hour_minute(h, mi)
}

} // verus!
