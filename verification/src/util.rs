//! Bounded histories and the log.

use vstd::prelude::*;
use vstd::string::*;

use crate::number;
use crate::text;

verus! {

/// How many lines the log keeps.
pub const LOG_RETAIN: usize = 200;

/// `items` with `item` behind them, the oldest dropped if more than `cap` are
/// there.
pub open spec fn capped_push<T>(items: Seq<T>, item: T, cap: nat) -> Seq<T> {
    let all = items.push(item);
    if all.len() > cap {
        all.drop_first()
    } else {
        all
    }
}

/// Appends `item`, and drops the oldest text if more than `cap` are there.
pub fn push_capped(items: &mut Vec<String>, item: String, cap: usize)
    ensures
        text::texts(final(items)@) == capped_push(text::texts(old(items)@), item@, cap as nat),
{
    let ghost all = text::texts(items@).push(item@);
    items.push(item);
    proof {
        assert(text::texts(items@) =~= all);
    }
    if items.len() > cap {
        items.remove(0);
        proof {
            assert(text::texts(items@) =~= all.drop_first());
        }
    }
}

/// Appends a line to the log, which keeps the last lines only.
pub fn push_log(log: &mut Vec<String>, message: String)
    ensures
        text::texts(final(log)@) == capped_push(
            text::texts(old(log)@),
            message@,
            LOG_RETAIN as nat,
        ),
{
    push_capped(log, message, LOG_RETAIN);
}

/// A duration of `secs` seconds in minutes and seconds.
pub open spec fn elapsed_text(secs: nat) -> Seq<char> {
    number::dec(secs / 60) + "分"@ + number::dec(secs % 60) + "秒"@
}

/// A duration of `secs` seconds in minutes and seconds.
pub fn humantime_elapsed(secs: u64) -> (r: String)
    ensures
        r@ == elapsed_text(secs as nat),
{
    let mut out = number::dec_text(secs / 60);
    out.append("分");
    out.append(number::dec_text(secs % 60).as_str());
    out.append("秒");
    out
}

/// A bounded history stays bounded, ends with what came last, and keeps the
/// others in order.
pub proof fn law_history_is_bounded<T>(items: Seq<T>, item: T, cap: nat)
    requires
        0 < cap,
        items.len() <= cap,
    ensures
        capped_push(items, item, cap).len() <= cap,
        capped_push(items, item, cap).last() == item,
        items.len() < cap ==> capped_push(items, item, cap) == items.push(item),
        items.len() == cap ==> capped_push(items, item, cap) == items.drop_first().push(item),
{
    assert(items.push(item).drop_first() =~= items.drop_first().push(item) || items.len() == 0);
}

/// A duration is shown in whole minutes and the seconds left, and the log keeps
/// two hundred lines.
pub proof fn law_duration_in_minutes(mins: nat, secs: nat)
    requires
        secs < 60,
    ensures
        elapsed_text(60 * mins + secs) == number::dec(mins) + "分"@ + number::dec(secs) + "秒"@,
        LOG_RETAIN == 200,
{
    assert((60 * mins + secs) / 60 == mins);
    assert((60 * mins + secs) % 60 == secs);
}

} // verus!
