//! Release of the space that is kept back for recovery.

use crate::number::double::Double;
use crate::number::laws::law_integers_keep_order;
use crate::render::{fixed_text, format_fixed};
use vstd::prelude::*;

verus! {

/// The arguments of the command: it takes none.
#[derive(Debug)]
pub struct ReserveReleaseArgs;

/// A size in gibibytes with two decimals from one gibibyte on, in mebibytes with one below.
pub open spec fn human_bytes_text(bytes: u64) -> Seq<char> {
    let b = Double::integer(bytes as int);
    if !b.less(Double::integer(1073741824)) {
        fixed_text(b.over(Double::integer(1073741824)), 2) + " GiB"@
    } else {
        fixed_text(b.over(Double::integer(1048576)), 1) + " MiB"@
    }
}

pub fn human_bytes(bytes: u64) -> (r: String)
    ensures
        r@ == human_bytes_text(bytes),
{
    let b: Double = Double::from_u64(bytes);
    let gib: Double = Double::from_u64(1073741824);
    if !b.lt(gib) {
        let mut r: String = format_fixed(b.div(gib), 2);
        r.append(" GiB");
        r
    } else {
        let mut r: String = format_fixed(b.div(Double::from_u64(1048576)), 1);
        r.append(" MiB");
        r
    }
}

/// Gibibytes start at exactly one of them.
pub proof fn law_human_bytes_unit(bytes: u64)
    ensures
        bytes < 1073741824 ==> human_bytes_text(bytes) == fixed_text(
            Double::integer(bytes as int).over(Double::integer(1048576)),
            1,
        ) + " MiB"@,
        1073741824 <= bytes ==> human_bytes_text(bytes) == fixed_text(
            Double::integer(bytes as int).over(Double::integer(1073741824)),
            2,
        ) + " GiB"@,
{
    let n = bytes as int;
    if n < 1073741824 {
        law_integers_keep_order(n, 1073741824);
    } else {
        law_integers_keep_order(1073741824, n);
    }
}

/// What a release is answered with. `home_dir` and `reserve_path` name the home directory and the
/// reserve file in it.
pub open spec fn release_text(bytes: u64, home_dir: Seq<char>, reserve_path: Seq<char>) -> Seq<
    char,
> {
    if bytes == 0 {
        "Reserve already released (or never created at "@ + home_dir + ")."@
    } else {
        "Released "@ + human_bytes_text(bytes) + " from "@ + reserve_path
            + "; run `boxlite gc` / `boxlite rm -f <box>` to reclaim more. The reserve will be recreated automatically on the next runtime start."@
    }
}

pub fn release_message(bytes: u64, home_dir: &str, reserve_path: &str) -> (r: String)
    ensures
        r@ == release_text(bytes, home_dir@, reserve_path@),
{
    if bytes == 0 {
        let mut r: String = "Reserve already released (or never created at ".to_owned();
        r.append(home_dir);
        r.append(").");
        r
    } else {
        let mut r: String = "Released ".to_owned();
        r.append(human_bytes(bytes).as_str());
        r.append(" from ");
        r.append(reserve_path);
        r.append("; run `boxlite gc` / `boxlite rm -f <box>` to reclaim more. The reserve will be recreated automatically on the next runtime start.");
        r
    }
}

} // verus!
