use crate::cop::lint::duplicates::bytes_eq;
use crate::cop::report::{adds_offense, emit_offense};
use crate::cop::text::{
    ascii_lower, ascii_lower_exec, ascii_upper, ascii_upper_exec, concat_bytes, join_exec,
    join_with, lemma_split_nonempty, split_on, split_on_exec, views,
};
use crate::cop::util::{copy_range_to_vec, is_valid_utf8, lossy_text, text_of};
use crate::correction::Correction;
use crate::diagnostic::{Diagnostic, Severity};
use crate::parse::source::{col_of, line_of, SourceFile};
use vstd::prelude::*;
use vstd::utf8::valid_utf8;

verus! {

/// The `Lint/DeprecatedOpenSSLConstant` cop: `OpenSSL::Cipher::AES.new`
/// and its kin are deprecated in favour of passing the algorithm's name.
pub struct DeprecatedOpenSSLConstant;

/// The receiver `A::B::Name` of a call, when it is a constant path with a
/// name.
pub struct SslConstant {
    /// Where the receiver lies.
    pub start: usize,
    pub end: usize,
    /// Its last name.
    pub algo: Vec<u8>,
    /// Its parent, when that is a constant path with a name: where it lies and
    /// its last name.
    pub parent: Option<(usize, usize, Vec<u8>)>,
    /// The last name of the parent's own parent, when that is a constant.
    pub grandparent: Option<Vec<u8>>,
}

/// An argument of the call: where it lies, and whether it is dynamic (a
/// variable, a method call or a constant).
pub struct SslArg {
    pub start: usize,
    pub end: usize,
    pub dynamic: bool,
}

/// A method call, as far as the cop reads it.
pub struct SslCall {
    pub name: Vec<u8>,
    pub start: usize,
    pub end: usize,
    pub receiver: Option<SslConstant>,
    pub args: Vec<SslArg>,
}

/// The bytes split into chunks of three, the last one shorter.
pub open spec fn chunks3(s: Seq<u8>) -> Seq<Seq<u8>>
    decreases s.len(),
{
    if s.len() == 0 {
        Seq::empty()
    } else if s.len() <= 3 {
        seq![s]
    } else {
        seq![s.subrange(0, 3)] + chunks3(s.subrange(3, s.len() as int))
    }
}

/// The algorithm's name as a cipher takes it: the constant's name cut into
/// dash-separated chunks of three, when it is longer than three.
pub open spec fn algorithm_name(a: Seq<u8>) -> Seq<u8> {
    if a.len() <= 3 {
        a
    } else {
        join_with(chunks3(a), seq![45u8])
    }
}

/// Each part lower-cased.
pub open spec fn lower_parts(ps: Seq<Seq<u8>>) -> Seq<Seq<u8>> {
    ps.map_values(|p: Seq<u8>| ascii_lower(p))
}

/// The lower-cased dash-separated parts of the algorithm's name.
pub open spec fn algorithm_parts(a: Seq<u8>) -> Seq<Seq<u8>> {
    lower_parts(split_on(algorithm_name(a), 45u8))
}

/// A colon or a quote.
pub open spec fn is_trimmed(b: u8) -> bool {
    b == 58u8 || b == 39u8 || b == 34u8
}

/// Start of `s[a..b)` once colons and quotes are trimmed from its front.
pub open spec fn trim_front(s: Seq<u8>, a: int, b: int) -> int
    decreases b - a,
{
    if a < b && is_trimmed(s[a]) {
        trim_front(s, a + 1, b)
    } else {
        a
    }
}

/// End of `s[a..b)` once colons and quotes are trimmed from its back.
pub open spec fn trim_back_quotes(s: Seq<u8>, a: int, b: int) -> int
    decreases b - a,
{
    if a < b && is_trimmed(s[b - 1]) {
        trim_back_quotes(s, a, b - 1)
    } else {
        b
    }
}

/// The argument with colons and quotes trimmed from both ends.
pub open spec fn cleaned(s: Seq<u8>) -> Seq<u8> {
    let a = trim_front(s, 0, s.len() as int);
    s.subrange(a, trim_back_quotes(s, a, s.len() as int))
}

/// The non-empty parts of `ps`, lower-cased, in order.
pub open spec fn nonempty_lower(ps: Seq<Seq<u8>>) -> Seq<Seq<u8>>
    decreases ps.len(),
{
    if ps.len() == 0 {
        Seq::empty()
    } else {
        let r = nonempty_lower(ps.drop_last());
        if ps.last().len() > 0 {
            r.push(ascii_lower(ps.last()))
        } else {
            r
        }
    }
}

/// The key size and mode that the arguments give: their dash-separated
/// parts, cleaned and lower-cased, in order.
pub open spec fn size_and_mode(args: Seq<Seq<u8>>) -> Seq<Seq<u8>>
    decreases args.len(),
{
    if args.len() == 0 {
        Seq::empty()
    } else {
        size_and_mode(args.drop_last()) + nonempty_lower(split_on(cleaned(args.last()), 45u8))
    }
}

/// Algorithms whose cipher takes no key size or mode.
pub open spec fn is_no_arg_algorithm(u: Seq<u8>) -> bool {
    u == algo_bf() || u == algo_des() || u == algo_idea() || u == algo_rc4()
}

/// The argument of `OpenSSL::Cipher.new` that names the algorithm: the
/// first argument for `Cipher::Cipher`; else the algorithm's parts, then the
/// key size and mode (`cbc` when none is given), at most three, joined by
/// dashes and quoted; or the first part alone for an algorithm without them
/// called without arguments.
pub open spec fn cipher_arguments(algo: Seq<u8>, args: Seq<Seq<u8>>) -> Seq<u8> {
    if algo == cipher_name() {
        if args.len() > 0 {
            args[0]
        } else {
            empty_quotes()
        }
    } else {
        let parts = algorithm_parts(algo);
        let sm = size_and_mode(args);
        if is_no_arg_algorithm(ascii_upper(parts[0])) && args.len() == 0 {
            seq![39u8] + parts[0] + seq![39u8]
        } else {
            let all = parts + (if sm.len() == 0 {
                seq![cbc_mode()]
            } else {
                sm
            });
            let n = if all.len() < 3 {
                all.len() as int
            } else {
                3
            };
            seq![39u8] + join_with(all.subrange(0, n), seq![45u8]) + seq![39u8]
        }
    }
}

/// The call that replaces the deprecated one, when there is one.
pub open spec fn ssl_replacement(parent_class: Seq<u8>, algo: Seq<u8>, name: Seq<u8>, args: Seq<Seq<u8>>) -> Option<
    Seq<u8>,
> {
    if parent_class == cipher_class() {
        if name == new_name() {
            Some(cipher_new() + cipher_arguments(algo, args) + seq![41u8])
        } else {
            None
        }
    } else if parent_class == digest_class() {
        let joined = join_with(seq![seq![39u8] + algo + seq![39u8]] + args, comma_space());
        if name == new_name() {
            Some(digest_new() + joined + seq![41u8])
        } else if name == digest_method() {
            Some(digest_digest() + joined + seq![41u8])
        } else {
            None
        }
    } else {
        None
    }
}

/// The text of `s[a..b)` when it is UTF-8, else `default`.
pub open spec fn text_or(s: Seq<u8>, a: int, b: int, default: Seq<u8>) -> Seq<u8> {
    if valid_utf8(s.subrange(a, b)) {
        s.subrange(a, b)
    } else {
        default
    }
}

/// The sources of the arguments (empty where one is not UTF-8).
pub open spec fn arg_sources(s: Seq<u8>, args: Seq<SslArg>) -> Seq<Seq<u8>> {
    args.map_values(|a: SslArg| text_or(s, a.start as int, a.end as int, Seq::empty()))
}

/// `new` or `digest` called, with no dynamic argument, on
/// `OpenSSL::Cipher::X` or `OpenSSL::Digest::X` (but not on
/// `OpenSSL::Digest::Digest`).
pub open spec fn is_deprecated(c: SslCall) -> bool {
    &&& (c.name@ == new_name() || c.name@ == digest_method())
    &&& forall|k: int| 0 <= k < c.args@.len() ==> !(#[trigger] c.args@[k]).dynamic
    &&& match c.receiver {
        Some(r) => match r.parent {
            Some((_, _, pn)) => (pn@ == cipher_name() || pn@ == digest_name()) && !(pn@ == digest_name()
                && r.algo@ == digest_name()) && match r.grandparent {
                Some(g) => g@ == openssl_name(),
                None => false,
            },
            None => false,
        },
        None => false,
    }
}

/// The offense of a deprecated call: reported at the call, replaced by the
/// call on the parent class with the algorithm as an argument.
pub open spec fn ssl_offense(s: Seq<u8>, c: SslCall) -> Option<
    (int, int, Seq<char>, Option<(int, int, Seq<char>)>),
> {
    if !is_deprecated(c) {
        None
    } else {
        let r = c.receiver->0;
        let (ps, pe, _) = r.parent->0;
        let pc = text_or(s, ps as int, pe as int, cipher_class());
        let rs = text_or(s, r.start as int, r.end as int, default_receiver());
        let algo = if valid_utf8(r.algo@) {
            r.algo@
        } else {
            default_algorithm()
        };
        Some(
            (
                line_of(s, c.start as int) as int,
                col_of(s, c.start as int) as int,
                "Use `"@ + lossy_text(pc) + "` instead of `"@ + lossy_text(rs) + "`."@,
                match ssl_replacement(pc, algo, c.name@, arg_sources(s, c.args@)) {
                    Some(b) => Some((c.start as int, c.end as int, lossy_text(b))),
                    None => None,
                },
            ),
        )
    }
}

pub open spec fn ssl_in_bounds(s: Seq<u8>, c: SslCall) -> bool {
    &&& c.start <= c.end <= s.len()
    &&& forall|k: int| 0 <= k < c.args@.len() ==> #[trigger] c.args@[k].start <= c.args@[k].end <= s.len()
    &&& match c.receiver {
        Some(r) => r.start <= r.end <= s.len() && match r.parent {
            Some((ps, pe, _)) => ps <= pe <= s.len(),
            None => true,
        },
        None => true,
    }
}

/// The bytes of `Cipher`.
pub open spec fn cipher_name() -> Seq<u8> {
    seq![67u8, 105u8, 112u8, 104u8, 101u8, 114u8]
}

fn cipher_name_exec() -> (r: Vec<u8>)
    ensures
        r@ == cipher_name(),
{
    let v = vec![67u8, 105u8, 112u8, 104u8, 101u8, 114u8];
    assert(v@ =~= cipher_name());
    v
}

/// The bytes of `Digest`.
pub open spec fn digest_name() -> Seq<u8> {
    seq![68u8, 105u8, 103u8, 101u8, 115u8, 116u8]
}

fn digest_name_exec() -> (r: Vec<u8>)
    ensures
        r@ == digest_name(),
{
    let v = vec![68u8, 105u8, 103u8, 101u8, 115u8, 116u8];
    assert(v@ =~= digest_name());
    v
}

/// The bytes of `OpenSSL`.
pub open spec fn openssl_name() -> Seq<u8> {
    seq![79u8, 112u8, 101u8, 110u8, 83u8, 83u8, 76u8]
}

fn openssl_name_exec() -> (r: Vec<u8>)
    ensures
        r@ == openssl_name(),
{
    let v = vec![79u8, 112u8, 101u8, 110u8, 83u8, 83u8, 76u8];
    assert(v@ =~= openssl_name());
    v
}

/// The bytes of `new`.
pub open spec fn new_name() -> Seq<u8> {
    seq![110u8, 101u8, 119u8]
}

fn new_name_exec() -> (r: Vec<u8>)
    ensures
        r@ == new_name(),
{
    let v = vec![110u8, 101u8, 119u8];
    assert(v@ =~= new_name());
    v
}

/// The bytes of `digest`.
pub open spec fn digest_method() -> Seq<u8> {
    seq![100u8, 105u8, 103u8, 101u8, 115u8, 116u8]
}

fn digest_method_exec() -> (r: Vec<u8>)
    ensures
        r@ == digest_method(),
{
    let v = vec![100u8, 105u8, 103u8, 101u8, 115u8, 116u8];
    assert(v@ =~= digest_method());
    v
}

/// The bytes of `OpenSSL::Cipher`.
pub open spec fn cipher_class() -> Seq<u8> {
    seq![79u8, 112u8, 101u8, 110u8, 83u8, 83u8, 76u8, 58u8, 58u8, 67u8, 105u8, 112u8, 104u8, 101u8, 114u8]
}

fn cipher_class_exec() -> (r: Vec<u8>)
    ensures
        r@ == cipher_class(),
{
    let v = vec![79u8, 112u8, 101u8, 110u8, 83u8, 83u8, 76u8, 58u8, 58u8, 67u8, 105u8, 112u8, 104u8, 101u8, 114u8];
    assert(v@ =~= cipher_class());
    v
}

/// The bytes of `OpenSSL::Digest`.
pub open spec fn digest_class() -> Seq<u8> {
    seq![79u8, 112u8, 101u8, 110u8, 83u8, 83u8, 76u8, 58u8, 58u8, 68u8, 105u8, 103u8, 101u8, 115u8, 116u8]
}

fn digest_class_exec() -> (r: Vec<u8>)
    ensures
        r@ == digest_class(),
{
    let v = vec![79u8, 112u8, 101u8, 110u8, 83u8, 83u8, 76u8, 58u8, 58u8, 68u8, 105u8, 103u8, 101u8, 115u8, 116u8];
    assert(v@ =~= digest_class());
    v
}

/// The bytes of `OpenSSL::Cipher::AES`.
pub open spec fn default_receiver() -> Seq<u8> {
    seq![79u8, 112u8, 101u8, 110u8, 83u8, 83u8, 76u8, 58u8, 58u8, 67u8, 105u8, 112u8, 104u8, 101u8, 114u8, 58u8, 58u8, 65u8, 69u8, 83u8]
}

fn default_receiver_exec() -> (r: Vec<u8>)
    ensures
        r@ == default_receiver(),
{
    let v = vec![79u8, 112u8, 101u8, 110u8, 83u8, 83u8, 76u8, 58u8, 58u8, 67u8, 105u8, 112u8, 104u8, 101u8, 114u8, 58u8, 58u8, 65u8, 69u8, 83u8];
    assert(v@ =~= default_receiver());
    v
}

/// The bytes of `AES`.
pub open spec fn default_algorithm() -> Seq<u8> {
    seq![65u8, 69u8, 83u8]
}

fn default_algorithm_exec() -> (r: Vec<u8>)
    ensures
        r@ == default_algorithm(),
{
    let v = vec![65u8, 69u8, 83u8];
    assert(v@ =~= default_algorithm());
    v
}

/// The bytes of `cbc`.
pub open spec fn cbc_mode() -> Seq<u8> {
    seq![99u8, 98u8, 99u8]
}

fn cbc_mode_exec() -> (r: Vec<u8>)
    ensures
        r@ == cbc_mode(),
{
    let v = vec![99u8, 98u8, 99u8];
    assert(v@ =~= cbc_mode());
    v
}

/// The bytes of `''`.
pub open spec fn empty_quotes() -> Seq<u8> {
    seq![39u8, 39u8]
}

fn empty_quotes_exec() -> (r: Vec<u8>)
    ensures
        r@ == empty_quotes(),
{
    let v = vec![39u8, 39u8];
    assert(v@ =~= empty_quotes());
    v
}

/// The bytes of `OpenSSL::Cipher.new(`.
pub open spec fn cipher_new() -> Seq<u8> {
    seq![79u8, 112u8, 101u8, 110u8, 83u8, 83u8, 76u8, 58u8, 58u8, 67u8, 105u8, 112u8, 104u8, 101u8, 114u8, 46u8, 110u8, 101u8, 119u8, 40u8]
}

fn cipher_new_exec() -> (r: Vec<u8>)
    ensures
        r@ == cipher_new(),
{
    let v = vec![79u8, 112u8, 101u8, 110u8, 83u8, 83u8, 76u8, 58u8, 58u8, 67u8, 105u8, 112u8, 104u8, 101u8, 114u8, 46u8, 110u8, 101u8, 119u8, 40u8];
    assert(v@ =~= cipher_new());
    v
}

/// The bytes of `OpenSSL::Digest.new(`.
pub open spec fn digest_new() -> Seq<u8> {
    seq![79u8, 112u8, 101u8, 110u8, 83u8, 83u8, 76u8, 58u8, 58u8, 68u8, 105u8, 103u8, 101u8, 115u8, 116u8, 46u8, 110u8, 101u8, 119u8, 40u8]
}

fn digest_new_exec() -> (r: Vec<u8>)
    ensures
        r@ == digest_new(),
{
    let v = vec![79u8, 112u8, 101u8, 110u8, 83u8, 83u8, 76u8, 58u8, 58u8, 68u8, 105u8, 103u8, 101u8, 115u8, 116u8, 46u8, 110u8, 101u8, 119u8, 40u8];
    assert(v@ =~= digest_new());
    v
}

/// The bytes of `OpenSSL::Digest.digest(`.
pub open spec fn digest_digest() -> Seq<u8> {
    seq![79u8, 112u8, 101u8, 110u8, 83u8, 83u8, 76u8, 58u8, 58u8, 68u8, 105u8, 103u8, 101u8, 115u8, 116u8, 46u8, 100u8, 105u8, 103u8, 101u8, 115u8, 116u8, 40u8]
}

fn digest_digest_exec() -> (r: Vec<u8>)
    ensures
        r@ == digest_digest(),
{
    let v = vec![79u8, 112u8, 101u8, 110u8, 83u8, 83u8, 76u8, 58u8, 58u8, 68u8, 105u8, 103u8, 101u8, 115u8, 116u8, 46u8, 100u8, 105u8, 103u8, 101u8, 115u8, 116u8, 40u8];
    assert(v@ =~= digest_digest());
    v
}

/// The bytes of `, `.
pub open spec fn comma_space() -> Seq<u8> {
    seq![44u8, 32u8]
}

fn comma_space_exec() -> (r: Vec<u8>)
    ensures
        r@ == comma_space(),
{
    let v = vec![44u8, 32u8];
    assert(v@ =~= comma_space());
    v
}

/// The bytes of `BF`.
pub open spec fn algo_bf() -> Seq<u8> {
    seq![66u8, 70u8]
}

fn algo_bf_exec() -> (r: Vec<u8>)
    ensures
        r@ == algo_bf(),
{
    let v = vec![66u8, 70u8];
    assert(v@ =~= algo_bf());
    v
}

/// The bytes of `DES`.
pub open spec fn algo_des() -> Seq<u8> {
    seq![68u8, 69u8, 83u8]
}

fn algo_des_exec() -> (r: Vec<u8>)
    ensures
        r@ == algo_des(),
{
    let v = vec![68u8, 69u8, 83u8];
    assert(v@ =~= algo_des());
    v
}

/// The bytes of `IDEA`.
pub open spec fn algo_idea() -> Seq<u8> {
    seq![73u8, 68u8, 69u8, 65u8]
}

fn algo_idea_exec() -> (r: Vec<u8>)
    ensures
        r@ == algo_idea(),
{
    let v = vec![73u8, 68u8, 69u8, 65u8];
    assert(v@ =~= algo_idea());
    v
}

/// The bytes of `RC4`.
pub open spec fn algo_rc4() -> Seq<u8> {
    seq![82u8, 67u8, 52u8]
}

fn algo_rc4_exec() -> (r: Vec<u8>)
    ensures
        r@ == algo_rc4(),
{
    let v = vec![82u8, 67u8, 52u8];
    assert(v@ =~= algo_rc4());
    v
}

fn chunks3_exec(s: &[u8]) -> (r: Vec<Vec<u8>>)
    ensures
        views(r@) == chunks3(s@),
{
    let n = s.len();
    let mut out: Vec<Vec<u8>> = Vec::new();
    let mut i: usize = 0;
    assert(s@.subrange(0, n as int) =~= s@);
    while i < n
        invariant
            i <= n == s@.len(),
            views(out@) + chunks3(s@.subrange(i as int, n as int)) == chunks3(s@),
        decreases n - i,
    {
        let ghost t = s@.subrange(i as int, n as int);
        let ghost before = views(out@);
        if n - i <= 3 {
            let c = copy_range_to_vec(s, i, n);
            out.push(c);
            assert(chunks3(t) == seq![t]);
            assert(views(out@) =~= before.push(t));
            assert(s@.subrange(n as int, n as int) =~= Seq::<u8>::empty());
            assert(views(out@) + chunks3(s@.subrange(n as int, n as int)) =~= before + chunks3(t));
            i = n;
        } else {
            let c = copy_range_to_vec(s, i, i + 3);
            out.push(c);
            assert(t.subrange(0, 3) =~= s@.subrange(i as int, i + 3));
            assert(t.subrange(3, t.len() as int) =~= s@.subrange(i + 3, n as int));
            assert(chunks3(t) == seq![t.subrange(0, 3)] + chunks3(t.subrange(3, t.len() as int)));
            assert(views(out@) =~= before.push(s@.subrange(i as int, i + 3)));
            assert(views(out@) + chunks3(s@.subrange(i + 3, n as int)) =~= before + chunks3(t));
            i = i + 3;
        }
    }
    assert(s@.subrange(n as int, n as int) =~= Seq::<u8>::empty());
    assert(views(out@) + chunks3(Seq::<u8>::empty()) =~= views(out@));
    out
}

fn lower_all(ps: &Vec<Vec<u8>>) -> (r: Vec<Vec<u8>>)
    ensures
        views(r@) == lower_parts(views(ps@)),
        r@.len() == ps@.len(),
{
    let mut out: Vec<Vec<u8>> = Vec::new();
    let mut k: usize = 0;
    while k < ps.len()
        invariant
            k <= ps@.len(),
            out@.len() == k,
            views(out@) == lower_parts(views(ps@.subrange(0, k as int))),
        decreases ps@.len() - k,
    {
        let ghost before = views(out@);
        let l = ascii_lower_exec(ps[k].as_slice());
        out.push(l);
        assert(views(out@) =~= before.push(ascii_lower(ps@[k as int]@)));
        assert(lower_parts(views(ps@.subrange(0, k + 1))) =~= lower_parts(views(ps@.subrange(0, k as int))).push(ascii_lower(ps@[k as int]@)));
        k = k + 1;
    }
    assert(ps@.subrange(0, ps@.len() as int) =~= ps@);
    out
}

fn algorithm_parts_exec(a: &[u8]) -> (r: Vec<Vec<u8>>)
    ensures
        views(r@) == algorithm_parts(a@),
        r@.len() >= 1,
{
    let name = if a.len() <= 3 {
        copy_range_to_vec(a, 0, a.len())
    } else {
        let dash = vec![45u8];
        assert(dash@ =~= seq![45u8]);
        join_exec(&chunks3_exec(a), dash.as_slice())
    };
    assert(a@.subrange(0, a@.len() as int) =~= a@);
    assert(name@ == algorithm_name(a@));
    let parts = split_on_exec(name.as_slice(), 45u8);
    proof {
        lemma_split_nonempty(name@, 45u8);
    }
    assert(views(parts@).len() == parts@.len());
    lower_all(&parts)
}

fn cleaned_exec(s: &[u8]) -> (r: Vec<u8>)
    ensures
        r@ == cleaned(s@),
{
    let n = s.len();
    let mut a: usize = 0;
    while a < n && (s[a] == 58u8 || s[a] == 39u8 || s[a] == 34u8)
        invariant
            a <= n == s@.len(),
            trim_front(s@, 0, n as int) == trim_front(s@, a as int, n as int),
        decreases n - a,
    {
        a = a + 1;
    }
    let mut b: usize = n;
    while b > a && (s[b - 1] == 58u8 || s[b - 1] == 39u8 || s[b - 1] == 34u8)
        invariant
            a <= b <= n == s@.len(),
            trim_back_quotes(s@, a as int, n as int) == trim_back_quotes(s@, a as int, b as int),
        decreases b - a,
    {
        b = b - 1;
    }
    copy_range_to_vec(s, a, b)
}

fn nonempty_lower_exec(ps: &Vec<Vec<u8>>, out: &mut Vec<Vec<u8>>)
    ensures
        views(final(out)@) == views(old(out)@) + nonempty_lower(views(ps@)),
{
    let mut k: usize = 0;
    while k < ps.len()
        invariant
            k <= ps@.len(),
            views(out@) == views(old(out)@) + nonempty_lower(views(ps@.subrange(0, k as int))),
        decreases ps@.len() - k,
    {
        let ghost before = views(out@);
        let ghost vs = views(ps@.subrange(0, k + 1));
        assert(vs.drop_last() =~= views(ps@.subrange(0, k as int)));
        assert(vs.last() == ps@[k as int]@);
        if ps[k].len() > 0 {
            let l = ascii_lower_exec(ps[k].as_slice());
            out.push(l);
            assert(views(out@) =~= before.push(ascii_lower(ps@[k as int]@)));
        }
        k = k + 1;
    }
    assert(ps@.subrange(0, ps@.len() as int) =~= ps@);
}

fn size_and_mode_exec(args: &Vec<Vec<u8>>) -> (r: Vec<Vec<u8>>)
    ensures
        views(r@) == size_and_mode(views(args@)),
{
    let mut out: Vec<Vec<u8>> = Vec::new();
    let mut k: usize = 0;
    while k < args.len()
        invariant
            k <= args@.len(),
            views(out@) == size_and_mode(views(args@.subrange(0, k as int))),
        decreases args@.len() - k,
    {
        let ghost vs = views(args@.subrange(0, k + 1));
        assert(vs.drop_last() =~= views(args@.subrange(0, k as int)));
        assert(vs.last() == args@[k as int]@);
        let c = cleaned_exec(args[k].as_slice());
        let parts = split_on_exec(c.as_slice(), 45u8);
        nonempty_lower_exec(&parts, &mut out);
        k = k + 1;
    }
    assert(args@.subrange(0, args@.len() as int) =~= args@);
    out
}

fn quoted(s: &[u8]) -> (r: Vec<u8>)
    ensures
        r@ == seq![39u8] + s@ + seq![39u8],
{
    let q = vec![39u8];
    assert(q@ =~= seq![39u8]);
    let a = concat_bytes(q.as_slice(), s);
    concat_bytes(a.as_slice(), q.as_slice())
}

fn cipher_arguments_exec(algo: &[u8], args: &Vec<Vec<u8>>) -> (r: Vec<u8>)
    ensures
        r@ == cipher_arguments(algo@, views(args@)),
{
    let cn = cipher_name_exec();
    if bytes_eq(algo, cn.as_slice()) {
        if args.len() > 0 {
            return copy_range_to_vec(args[0].as_slice(), 0, args[0].len());
        } else {
            return empty_quotes_exec();
        }
    }
    let parts = algorithm_parts_exec(algo);
    let sm = size_and_mode_exec(args);
    let up = ascii_upper_exec(parts[0].as_slice());
    let b1 = algo_bf_exec();
    let b2 = algo_des_exec();
    let b3 = algo_idea_exec();
    let b4 = algo_rc4_exec();
    let no_arg = bytes_eq(up.as_slice(), b1.as_slice()) || bytes_eq(up.as_slice(), b2.as_slice())
        || bytes_eq(up.as_slice(), b3.as_slice()) || bytes_eq(up.as_slice(), b4.as_slice());
    if no_arg && args.len() == 0 {
        return quoted(parts[0].as_slice());
    }
    let mut all: Vec<Vec<u8>> = Vec::new();
    let mut k: usize = 0;
    while k < parts.len() && all.len() < 3
        invariant
            k <= parts@.len(),
            all@.len() == k,
            k <= 3,
            views(all@) == views(parts@).subrange(0, k as int),
        decreases parts@.len() - k,
    {
        all.push(copy_range_to_vec(parts[k].as_slice(), 0, parts[k].len()));
        assert(parts@[k as int]@.subrange(0, parts@[k as int]@.len() as int) =~= parts@[k as int]@);
        assert(views(all@) =~= views(parts@).subrange(0, k + 1));
        k = k + 1;
    }
    let ghost tail = if sm@.len() == 0 {
        seq![cbc_mode()]
    } else {
        views(sm@)
    };
    let ghost whole = views(parts@) + tail;
    let tail_v: Vec<Vec<u8>> = if sm.len() == 0 {
        let mut t: Vec<Vec<u8>> = Vec::new();
        t.push(cbc_mode_exec());
        assert(views(t@) =~= seq![cbc_mode()]);
        t
    } else {
        sm
    };
    assert(views(tail_v@) == tail);
    let mut j: usize = 0;
    while j < tail_v.len() && all.len() < 3
        invariant
            k <= parts@.len(),
            k <= 3,
            all@.len() == k + j,
            all@.len() <= 3,
            views(tail_v@) == tail,
            whole == views(parts@) + tail,
            (k < parts@.len() ==> k == 3),
            j <= tail_v@.len(),
            views(all@) == whole.subrange(0, (k + j) as int),
        decreases tail_v@.len() - j,
    {
        all.push(copy_range_to_vec(tail_v[j].as_slice(), 0, tail_v[j].len()));
        assert(tail_v@[j as int]@.subrange(0, tail_v@[j as int]@.len() as int) =~= tail_v@[j as int]@);
        assert(views(all@) =~= whole.subrange(0, (k + j + 1) as int));
        j = j + 1;
    }
    let ghost n = if whole.len() < 3 {
        whole.len() as int
    } else {
        3
    };
    assert(views(all@) =~= whole.subrange(0, n));
    let dash = vec![45u8];
    assert(dash@ =~= seq![45u8]);
    let joined = join_exec(&all, dash.as_slice());
    quoted(joined.as_slice())
}

fn ssl_replacement_exec(pc: &[u8], algo: &[u8], name: &[u8], args: &Vec<Vec<u8>>) -> (r: Option<Vec<u8>>)
    ensures
        match ssl_replacement(pc@, algo@, name@, views(args@)) {
            Some(b) => r matches Some(v) && v@ == b,
            None => r is None,
        },
{
    let close = vec![41u8];
    assert(close@ =~= seq![41u8]);
    let nn = new_name_exec();
    if bytes_eq(pc, cipher_class_exec().as_slice()) {
        if bytes_eq(name, nn.as_slice()) {
            let a = cipher_arguments_exec(algo, args);
            let b = concat_bytes(cipher_new_exec().as_slice(), a.as_slice());
            return Some(concat_bytes(b.as_slice(), close.as_slice()));
        }
        return None;
    }
    if bytes_eq(pc, digest_class_exec().as_slice()) {
        let mut all: Vec<Vec<u8>> = Vec::new();
        all.push(quoted(algo));
        let mut k: usize = 0;
        while k < args.len()
            invariant
                k <= args@.len(),
                views(all@) == seq![seq![39u8] + algo@ + seq![39u8]] + views(args@.subrange(0, k as int)),
            decreases args@.len() - k,
        {
            let ghost before = views(all@);
            let item = copy_range_to_vec(args[k].as_slice(), 0, args[k].len());
            assert(args@[k as int]@.subrange(0, args@[k as int]@.len() as int) =~= args@[k as int]@);
            assert(item@ == args@[k as int]@);
            all.push(item);
            assert(views(all@) =~= before.push(args@[k as int]@));
            assert(views(args@.subrange(0, k + 1)) =~= views(args@.subrange(0, k as int)).push(args@[k as int]@));
            assert(views(all@) =~= seq![seq![39u8] + algo@ + seq![39u8]] + views(args@.subrange(0, k + 1)));
            k = k + 1;
        }
        assert(args@.subrange(0, args@.len() as int) =~= args@);
        let joined = join_exec(&all, comma_space_exec().as_slice());
        let head = if bytes_eq(name, nn.as_slice()) {
            digest_new_exec()
        } else if bytes_eq(name, digest_method_exec().as_slice()) {
            digest_digest_exec()
        } else {
            return None;
        };
        let b = concat_bytes(head.as_slice(), joined.as_slice());
        return Some(concat_bytes(b.as_slice(), close.as_slice()));
    }
    None
}

fn text_or_exec(bytes: &[u8], a: usize, b: usize, default: Vec<u8>) -> (r: Vec<u8>)
    requires
        a <= b <= bytes@.len(),
    ensures
        r@ == text_or(bytes@, a as int, b as int, default@),
{
    if is_valid_utf8(vstd::slice::slice_subrange(bytes, a, b)) {
        copy_range_to_vec(bytes, a, b)
    } else {
        default
    }
}

impl DeprecatedOpenSSLConstant {
    pub fn name(&self) -> (r: &'static str)
        ensures
            r@ == "Lint/DeprecatedOpenSSLConstant"@,
    {
        "Lint/DeprecatedOpenSSLConstant"
    }

    pub fn default_severity(&self) -> (r: Severity)
        ensures
            r == Severity::Warning,
    {
        Severity::Warning
    }

    pub fn supports_autocorrect(&self) -> (r: bool)
        ensures
            r == true,
    {
        true
    }

    /// Checks one method call.
    pub fn check_call(
        &self,
        source: &SourceFile,
        call: &SslCall,
        diagnostics: &mut Vec<Diagnostic>,
        corrections: &mut Vec<Correction>,
        autocorrect: bool,
    )
        requires
            ssl_in_bounds(source@, *call),
        ensures
            adds_offense(
                old(diagnostics)@,
                final(diagnostics)@,
                old(corrections)@,
                final(corrections)@,
                source.spec_path(),
                "Lint/DeprecatedOpenSSLConstant"@,
                Severity::Warning,
                ssl_offense(source@, *call),
                autocorrect,
            ),
    {
        let bytes = source.as_bytes();
        let nn = new_name_exec();
        let dm = digest_method_exec();
        if !bytes_eq(call.name.as_slice(), nn.as_slice()) && !bytes_eq(call.name.as_slice(), dm.as_slice()) {
            return;
        }
        let mut k: usize = 0;
        while k < call.args.len()
            invariant
                k <= call.args@.len(),
                forall|j: int| 0 <= j < k ==> !(#[trigger] call.args@[j]).dynamic,
            decreases call.args@.len() - k,
        {
            if call.args[k].dynamic {
                return;
            }
            k = k + 1;
        }
        let r = match &call.receiver {
            Some(r) => r,
            None => {
                return;
            },
        };
        let (ps, pe, pn) = match &r.parent {
            Some((ps, pe, pn)) => (*ps, *pe, pn),
            None => {
                return;
            },
        };
        let cn = cipher_name_exec();
        let dn = digest_name_exec();
        let is_cipher = bytes_eq(pn.as_slice(), cn.as_slice());
        let is_digest = bytes_eq(pn.as_slice(), dn.as_slice());
        if !is_cipher && !is_digest {
            return;
        }
        if is_digest && bytes_eq(r.algo.as_slice(), dn.as_slice()) {
            return;
        }
        let on = openssl_name_exec();
        let openssl = match &r.grandparent {
            Some(g) => bytes_eq(g.as_slice(), on.as_slice()),
            None => false,
        };
        if !openssl {
            return;
        }
        assert(is_deprecated(*call));
        let pc = text_or_exec(bytes, ps, pe, cipher_class_exec());
        let rs = text_or_exec(bytes, r.start, r.end, default_receiver_exec());
        let algo = if is_valid_utf8(r.algo.as_slice()) {
            copy_range_to_vec(r.algo.as_slice(), 0, r.algo.len())
        } else {
            default_algorithm_exec()
        };
        assert(r.algo@.subrange(0, r.algo@.len() as int) =~= r.algo@);
        let mut sources: Vec<Vec<u8>> = Vec::new();
        let mut k: usize = 0;
        while k < call.args.len()
            invariant
                k <= call.args@.len(),
                bytes@ == source@,
                ssl_in_bounds(source@, *call),
                views(sources@) == arg_sources(source@, call.args@.subrange(0, k as int)),
            decreases call.args@.len() - k,
        {
            let a = &call.args[k];
            assert(call.args@[k as int].start <= call.args@[k as int].end <= source@.len());
            let ghost before = views(sources@);
            let none: Vec<u8> = Vec::new();
            let t = text_or_exec(bytes, a.start, a.end, none);
            let ghost tv = t@;
            sources.push(t);
            assert(views(sources@) =~= before.push(tv));
            assert(arg_sources(source@, call.args@.subrange(0, k + 1)) =~= arg_sources(source@, call.args@.subrange(0, k as int)).push(text_or(source@, a.start as int, a.end as int, Seq::empty())));
            assert(views(sources@) =~= arg_sources(source@, call.args@.subrange(0, k + 1)));
            k = k + 1;
        }
        assert(call.args@.subrange(0, call.args@.len() as int) =~= call.args@);
        let mut msg = "Use `".to_owned();
        let pct = text_of(pc.as_slice());
        msg.append(pct.as_str());
        msg.append("` instead of `");
        let rst = text_of(rs.as_slice());
        msg.append(rst.as_str());
        msg.append("`.");
        let edit = match ssl_replacement_exec(pc.as_slice(), algo.as_slice(), call.name.as_slice(), &sources) {
            Some(b) => Some((call.start, call.end, text_of(b.as_slice()))),
            None => None,
        };
        let (line, col) = source.offset_to_line_col(call.start);
        emit_offense(
            diagnostics,
            corrections,
            autocorrect,
            source,
            "Lint/DeprecatedOpenSSLConstant",
            Severity::Warning,
            line,
            col,
            msg,
            edit,
        );
    }
}

} // verus!
