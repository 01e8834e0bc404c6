//! Storage paths as the user interface addresses them.

use vstd::prelude::*;
use vstd::string::*;

verus! {

pub open spec fn asset_scheme() -> Seq<char> {
    seq!['a', 's', 's', 'e', 't', ':', '/', '/']
}

pub open spec fn asset_host() -> Seq<char> {
    asset_scheme() + seq!['l', 'o', 'c', 'a', 'l', 'h', 'o', 's', 't', '/']
}

/// Backslashes turned into forward slashes.
pub open spec fn forward_slashes(p: Seq<char>) -> Seq<char> {
    p.map_values(|c: char| if c == '\\' { '/' } else { c })
}

/// A path already in the asset scheme stays; any other becomes a
/// `asset://localhost/` address with forward slashes.
pub open spec fn asset_url(p: Seq<char>) -> Seq<char> {
    if p.len() >= asset_scheme().len() && p.take(asset_scheme().len() as int) == asset_scheme() {
        p
    } else {
        asset_host() + forward_slashes(p)
    }
}

fn starts_with_scheme(p: &str) -> (r: bool)
    ensures
        r == (p@.len() >= asset_scheme().len() && p@.take(asset_scheme().len() as int)
            == asset_scheme()),
{
    let prefix = "asset://";
    proof {
        reveal_strlit("asset://");
    }
    let n = prefix.unicode_len();
    if p.unicode_len() < n {
        return false;
    }
    let mut i: usize = 0;
    while i < n
        invariant
            n == prefix@.len(),
            prefix@ == asset_scheme(),
            n <= p@.len(),
            i <= n,
            forall|k: int| 0 <= k < i ==> p@[k] == prefix@[k],
        decreases n - i,
    {
        if p.get_char(i) != prefix.get_char(i) {
            assert(p@.take(n as int)[i as int] != asset_scheme()[i as int]);
            return false;
        }
        i = i + 1;
    }
    assert(p@.take(n as int) =~= asset_scheme());
    true
}

/// The address under which the user interface loads the file at `path`.
pub fn convert_path_protocol(path: &str) -> (r: String)
    ensures
        r@ == asset_url(path@),
{
    if starts_with_scheme(path) {
        return path.to_string();
    }
    proof {
        reveal_strlit("asset://localhost/");
        reveal_strlit("/");
    }
    let mut out = String::from_str("asset://localhost/");
    let n = path.unicode_len();
    let mut i: usize = 0;
    while i < n
        invariant
            n == path@.len(),
            i <= n,
            out@ == asset_host() + forward_slashes(path@.take(i as int)),
        decreases n - i,
    {
        let c = path.get_char(i);
        let ghost before = out@;
        if c == '\\' {
            proof {
                reveal_strlit("/");
            }
            out.append("/");
            assert(out@ =~= before + seq!['/']);
        } else {
            let piece = path.substring_char(i, i + 1);
            assert(piece@ =~= seq![c]);
            out.append(piece);
        }
        assert(forward_slashes(path@.take(i + 1)) =~= forward_slashes(path@.take(i as int)).push(
            if c == '\\' {
                '/'
            } else {
                c
            },
        ));
        assert(out@ =~= asset_host() + forward_slashes(path@.take(i + 1)));
        i = i + 1;
    }
    assert(path@.take(n as int) =~= path@);
    out
}

} // verus!
