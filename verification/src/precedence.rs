//! SemVer precedence, as the `semver` crate's `Ord` on `Version` decides
//! it: the numeric parts in turn; then the pre-release, where a release
//! comes after all of its pre-releases and identifiers are compared in
//! turn (numeric ones numerically and below alphanumeric ones,
//! alphanumeric ones in ASCII order, a longer list after a shorter one
//! with an equal prefix); then the build metadata, compared the same way
//! except that numeric identifiers compare by value, then by length.

use vstd::prelude::*;
use crate::text::{lemma_text_less_irreflexive, lemma_text_less_total, lemma_text_less_transitive, text_less};
use crate::version::{numeric_order, VersionView};

verus! {

/// The dot-separated identifiers of `s`, as `str::split('.')` gives
/// them (the empty text is one empty identifier).
pub open spec fn identifiers(s: Seq<char>) -> Seq<Seq<char>>
    decreases s.len(),
{
    if s.len() == 0 {
        seq![Seq::<char>::empty()]
    } else {
        let rest = identifiers(s.drop_last());
        if s.last() == '.' {
            rest.push(Seq::<char>::empty())
        } else {
            rest.update(rest.len() - 1, rest.last().push(s.last()))
        }
    }
}

/// Every character is an ASCII digit.
pub open spec fn all_digits(x: Seq<char>) -> bool {
    forall|i: int| 0 <= i < x.len() ==> '0' <= #[trigger] x[i] <= '9'
}

/// `str`'s order as -1, 0 or 1.
pub open spec fn text_order(x: Seq<char>, y: Seq<char>) -> int {
    if x == y {
        0
    } else if text_less(x, y) {
        -1
    } else {
        1
    }
}

/// `x` without its leading zeros.
pub open spec fn trim_zeros(x: Seq<char>) -> Seq<char>
    decreases x.len(),
{
    if x.len() > 0 && x[0] == '0' {
        trim_zeros(x.drop_first())
    } else {
        x
    }
}

/// Order of two pre-release identifiers (`build` false) or two build
/// identifiers (`build` true), as -1, 0 or 1. Numeric identifiers come
/// before alphanumeric ones; alphanumeric ones compare as text. Numeric
/// pre-release identifiers compare by length, then as text (their value,
/// as they have no leading zeros); numeric build identifiers compare by
/// value (length and text without leading zeros), then by length.
pub open spec fn ident_order(build: bool, x: Seq<char>, y: Seq<char>) -> int {
    if all_digits(x) && all_digits(y) {
        let (kx, ky) = if build {
            (trim_zeros(x), trim_zeros(y))
        } else {
            (x, y)
        };
        if kx.len() < ky.len() {
            -1
        } else if kx.len() > ky.len() {
            1
        } else if kx != ky {
            text_order(kx, ky)
        } else if x.len() < y.len() {
            -1
        } else if x.len() > y.len() {
            1
        } else {
            0
        }
    } else if all_digits(x) {
        -1
    } else if all_digits(y) {
        1
    } else {
        text_order(x, y)
    }
}

/// Lists of identifiers compared in turn; where one list runs out first
/// with all identifiers so far equal, it comes first.
pub open spec fn list_order(build: bool, xs: Seq<Seq<char>>, ys: Seq<Seq<char>>) -> int
    decreases xs.len(),
{
    if xs.len() == 0 {
        if ys.len() == 0 {
            0
        } else {
            -1
        }
    } else if ys.len() == 0 {
        1
    } else if ident_order(build, xs[0], ys[0]) != 0 {
        ident_order(build, xs[0], ys[0])
    } else {
        list_order(build, xs.drop_first(), ys.drop_first())
    }
}

/// Order of two pre-release texts: a release (empty text) comes after
/// every pre-release; otherwise identifiers are compared in turn.
pub open spec fn prerelease_order(a: Seq<char>, b: Seq<char>) -> int {
    if a.len() == 0 && b.len() == 0 {
        0
    } else if a.len() == 0 {
        1
    } else if b.len() == 0 {
        -1
    } else {
        list_order(false, identifiers(a), identifiers(b))
    }
}

/// Order of two build-metadata texts: identifiers compared in turn.
pub open spec fn build_order(a: Seq<char>, b: Seq<char>) -> int {
    list_order(true, identifiers(a), identifiers(b))
}

/// SemVer precedence of two versions as -1, 0 or 1: major, minor and
/// patch, then pre-release, then build metadata.
pub open spec fn version_precedence(a: VersionView, b: VersionView) -> int {
    if numeric_order(a, b) != 0 {
        numeric_order(a, b)
    } else if prerelease_order(a.3, b.3) != 0 {
        prerelease_order(a.3, b.3)
    } else {
        build_order(a.4, b.4)
    }
}

proof fn lemma_text_order(x: Seq<char>, y: Seq<char>, z: Seq<char>)
    ensures
        text_order(x, y) == -text_order(y, x),
        text_order(y, z) == -text_order(z, y),
        text_order(x, z) == -text_order(z, x),
        text_order(x, y) <= 0 && text_order(y, z) <= 0 ==> text_order(x, z) <= 0,
{
    lemma_text_less_irreflexive(x);
    lemma_text_less_irreflexive(y);
    lemma_text_less_irreflexive(z);
    if x != y {
        lemma_text_less_total(x, y);
    }
    if y != z {
        lemma_text_less_total(y, z);
    }
    if x != z {
        lemma_text_less_total(x, z);
    }
    if text_less(x, y) && text_less(y, x) {
        lemma_text_less_transitive(x, y, x);
    }
    if text_less(y, z) && text_less(z, y) {
        lemma_text_less_transitive(y, z, y);
    }
    if text_less(x, z) && text_less(z, x) {
        lemma_text_less_transitive(x, z, x);
    }
    if text_less(x, y) && text_less(y, z) {
        lemma_text_less_transitive(x, y, z);
    }
}

proof fn lemma_ident_order(build: bool, x: Seq<char>, y: Seq<char>, z: Seq<char>)
    ensures
        ident_order(build, x, y) == -ident_order(build, y, x),
        ident_order(build, y, z) == -ident_order(build, z, y),
        ident_order(build, x, z) == -ident_order(build, z, x),
        -1 <= ident_order(build, x, y) <= 1,
        ident_order(build, x, y) <= 0 && ident_order(build, y, z) <= 0 ==> ident_order(build, x, z)
            <= 0,
{
    lemma_text_order(x, y, z);
    lemma_text_order(trim_zeros(x), trim_zeros(y), trim_zeros(z));
}

/// The three orderings that follow for an order that is antisymmetric
/// and transitive: strict steps stay strict, and equal ones stay equal.
proof fn lemma_ident_order_full(build: bool, x: Seq<char>, y: Seq<char>, z: Seq<char>)
    ensures
        ident_order(build, x, y) == -ident_order(build, y, x),
        -1 <= ident_order(build, x, y) <= 1,
        ident_order(build, x, y) <= 0 && ident_order(build, y, z) <= 0 ==> ident_order(build, x, z)
            <= 0,
        ident_order(build, x, y) < 0 && ident_order(build, y, z) <= 0 ==> ident_order(build, x, z)
            < 0,
        ident_order(build, x, y) <= 0 && ident_order(build, y, z) < 0 ==> ident_order(build, x, z)
            < 0,
        ident_order(build, x, y) == 0 && ident_order(build, y, z) == 0 ==> ident_order(build, x, z)
            == 0,
{
    lemma_ident_order(build, x, y, z);
    lemma_ident_order(build, y, z, x);
    lemma_ident_order(build, z, x, y);
    lemma_ident_order(build, z, y, x);
}

proof fn lemma_list_order_antisymmetric(build: bool, xs: Seq<Seq<char>>, ys: Seq<Seq<char>>)
    ensures
        list_order(build, xs, ys) == -list_order(build, ys, xs),
        -1 <= list_order(build, xs, ys) <= 1,
    decreases xs.len(),
{
    if xs.len() > 0 && ys.len() > 0 {
        lemma_ident_order(build, xs[0], ys[0], ys[0]);
        lemma_list_order_antisymmetric(build, xs.drop_first(), ys.drop_first());
    }
}

proof fn lemma_list_order_transitive(build: bool, xs: Seq<Seq<char>>, ys: Seq<Seq<char>>, zs: Seq<Seq<char>>)
    requires
        list_order(build, xs, ys) <= 0,
        list_order(build, ys, zs) <= 0,
    ensures
        list_order(build, xs, zs) <= 0,
    decreases xs.len(),
{
    if xs.len() > 0 {
        lemma_ident_order_full(build, xs[0], ys[0], zs[0]);
        if ident_order(build, xs[0], ys[0]) == 0 && ident_order(build, ys[0], zs[0]) == 0 {
            lemma_list_order_transitive(build, xs.drop_first(), ys.drop_first(), zs.drop_first());
        }
    }
}

proof fn lemma_prerelease_order(a: Seq<char>, b: Seq<char>, c: Seq<char>)
    ensures
        prerelease_order(a, b) == -prerelease_order(b, a),
        -1 <= prerelease_order(a, b) <= 1,
        prerelease_order(a, b) <= 0 && prerelease_order(b, c) <= 0 ==> prerelease_order(a, c) <= 0,
{
    lemma_list_order_antisymmetric(false, identifiers(a), identifiers(b));
    if prerelease_order(a, b) <= 0 && prerelease_order(b, c) <= 0 && a.len() > 0 && b.len() > 0
        && c.len() > 0 {
        lemma_list_order_transitive(false, identifiers(a), identifiers(b), identifiers(c));
    }
}

proof fn lemma_build_order(a: Seq<char>, b: Seq<char>, c: Seq<char>)
    ensures
        build_order(a, b) == -build_order(b, a),
        -1 <= build_order(a, b) <= 1,
        build_order(a, b) <= 0 && build_order(b, c) <= 0 ==> build_order(a, c) <= 0,
{
    lemma_list_order_antisymmetric(true, identifiers(a), identifiers(b));
    if build_order(a, b) <= 0 && build_order(b, c) <= 0 {
        lemma_list_order_transitive(true, identifiers(a), identifiers(b), identifiers(c));
    }
}

/// Precedence is a total preorder: swapping the versions negates it, and
/// a version no later than a second that is no later than a third is no
/// later than the third.
pub proof fn lemma_precedence_orders(a: VersionView, b: VersionView, c: VersionView)
    ensures
        version_precedence(a, b) == -version_precedence(b, a),
        -1 <= version_precedence(a, b) <= 1,
        version_precedence(a, b) <= 0 && version_precedence(b, c) <= 0 ==> version_precedence(a, c)
            <= 0,
{
    lemma_prerelease_order(a.3, b.3, c.3);
    lemma_prerelease_order(b.3, c.3, a.3);
    lemma_prerelease_order(c.3, a.3, b.3);
    lemma_prerelease_order(c.3, b.3, a.3);
    lemma_build_order(a.4, b.4, c.4);
    lemma_build_order(b.4, c.4, a.4);
    lemma_build_order(c.4, a.4, b.4);
}

proof fn lemma_list_order_prefix(build: bool, xs: Seq<Seq<char>>, ys: Seq<Seq<char>>)
    requires
        xs.len() < ys.len(),
        ys.take(xs.len() as int) == xs,
    ensures
        list_order(build, xs, ys) == -1,
    decreases xs.len(),
{
    if xs.len() > 0 {
        assert(ys[0] == xs[0]) by {
            assert(ys.take(xs.len() as int)[0] == ys[0]);
        }
        lemma_ident_order(build, xs[0], xs[0], xs[0]);
        assert(ys.drop_first().take(xs.drop_first().len() as int) =~= xs.drop_first()) by {
            assert forall|k: int| 0 <= k < xs.drop_first().len() implies ys.drop_first().take(
                xs.drop_first().len() as int,
            )[k] == xs.drop_first()[k] by {
                assert(ys.take(xs.len() as int)[k + 1] == ys[k + 1]);
            }
        }
        lemma_list_order_prefix(build, xs.drop_first(), ys.drop_first());
    }
}

/// A pre-release whose identifiers are a proper prefix of another's,
/// with equal major, minor and patch, comes first (`1.0.0-beta` before
/// `1.0.0-beta.1`).
pub proof fn lemma_prerelease_prefix_comes_first(a: VersionView, b: VersionView)
    requires
        a.0 == b.0 && a.1 == b.1 && a.2 == b.2,
        a.3.len() > 0,
        identifiers(a.3).len() < identifiers(b.3).len(),
        identifiers(b.3).take(identifiers(a.3).len() as int) == identifiers(a.3),
    ensures
        version_precedence(a, b) < 0,
{
    if b.3.len() == 0 {
        assert(identifiers(b.3).len() == 1);
        assert(identifiers(a.3).len() >= 1) by {
            lemma_identifiers_non_empty(a.3);
        }
    }
    lemma_list_order_prefix(false, identifiers(a.3), identifiers(b.3));
}

proof fn lemma_identifiers_non_empty(s: Seq<char>)
    ensures
        identifiers(s).len() >= 1,
    decreases s.len(),
{
    if s.len() > 0 {
        lemma_identifiers_non_empty(s.drop_last());
    }
}

/// A release comes after each of its pre-releases (`1.0.0-rc.1` before
/// `1.0.0`).
pub proof fn lemma_release_after_prereleases(a: VersionView, b: VersionView)
    requires
        a.0 == b.0 && a.1 == b.1 && a.2 == b.2,
        a.3.len() > 0,
        b.3.len() == 0,
    ensures
        version_precedence(a, b) < 0,
        version_precedence(b, a) > 0,
{
}

/// Between two pre-releases of one release, the first identifier in which
/// they differ decides: a numeric one before an alphanumeric one, two
/// numeric ones by value, two alphanumeric ones in ASCII order.
pub proof fn lemma_first_differing_identifier_decides(a: VersionView, b: VersionView, k: int)
    requires
        a.0 == b.0 && a.1 == b.1 && a.2 == b.2,
        a.3.len() > 0,
        b.3.len() > 0,
        0 <= k < identifiers(a.3).len(),
        k < identifiers(b.3).len(),
        identifiers(a.3).take(k) == identifiers(b.3).take(k),
        identifiers(a.3)[k] != identifiers(b.3)[k],
    ensures
        version_precedence(a, b) == ident_order(false, identifiers(a.3)[k], identifiers(b.3)[k]),
        ident_order(false, identifiers(a.3)[k], identifiers(b.3)[k]) != 0,
{
    lemma_list_order_first_difference(identifiers(a.3), identifiers(b.3), k);
}

proof fn lemma_list_order_first_difference(xs: Seq<Seq<char>>, ys: Seq<Seq<char>>, k: int)
    requires
        0 <= k < xs.len(),
        k < ys.len(),
        xs.take(k) == ys.take(k),
        xs[k] != ys[k],
    ensures
        list_order(false, xs, ys) == ident_order(false, xs[k], ys[k]),
        ident_order(false, xs[k], ys[k]) != 0,
    decreases k,
{
    lemma_text_order(xs[k], ys[k], ys[k]);
    if k > 0 {
        assert(xs[0] == ys[0]) by {
            assert(xs.take(k)[0] == ys.take(k)[0]);
        }
        lemma_ident_order(false, xs[0], xs[0], xs[0]);
        assert(xs.drop_first().take(k - 1) =~= ys.drop_first().take(k - 1)) by {
            assert forall|j: int| 0 <= j < k - 1 implies xs.drop_first()[j] == ys.drop_first()[j] by {
                assert(xs.take(k)[j + 1] == ys.take(k)[j + 1]);
            }
        }
        lemma_list_order_first_difference(xs.drop_first(), ys.drop_first(), k - 1);
    }
}

} // verus!
