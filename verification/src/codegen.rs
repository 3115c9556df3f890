use vstd::prelude::*;

use crate::config::ConfigError;
use crate::config::Configuration;
use crate::config::parse_configuration;
use crate::config::parse_result;

verus! {

/// The parts of the annotated function that the generator captures and passes
/// through: its attributes, its signature (visibility included), and its
/// body, each as source text. The generated replacement keeps all three and
/// only changes what stands between the signature and the body.
pub struct FnDescriptor {
    pub attrs: Vec<String>,
    pub signature: String,
    pub body: String,
}

impl FnDescriptor {
    pub open spec fn attrs_view(&self) -> Seq<Seq<char>> {
        self.attrs@.map_values(|a: String| a@)
    }
}

pub open spec fn digit_char(d: nat) -> char {
    if d == 0 {
        '0'
    } else if d == 1 {
        '1'
    } else if d == 2 {
        '2'
    } else if d == 3 {
        '3'
    } else if d == 4 {
        '4'
    } else if d == 5 {
        '5'
    } else if d == 6 {
        '6'
    } else if d == 7 {
        '7'
    } else if d == 8 {
        '8'
    } else {
        '9'
    }
}

/// The decimal rendering of `n`, most significant digit first, no sign and no
/// leading zeros (a single `0` for zero).
pub open spec fn dec_str(n: nat) -> Seq<char>
    decreases n,
{
    if n < 10 {
        seq![digit_char(n)]
    } else {
        dec_str(n / 10) + seq![digit_char(n % 10)]
    }
}

/// The attribute lines of the generated function: each attribute's text
/// followed by a line break.
pub open spec fn attrs_text(attrs: Seq<Seq<char>>) -> Seq<char>
    decreases attrs.len(),
{
    if attrs.len() == 0 {
        Seq::empty()
    } else {
        attrs_text(attrs.drop_last()) + attrs.last() + "\n"@
    }
}

/// The full text of the generated replacement function: the original
/// attributes and signature, then a body that runs the original body inside a
/// panic-trapping loop of `count` attempts, returning on the first normal
/// completion and re-raising the last failure when every attempt fails.
pub open spec fn generated_text(
    attrs: Seq<Seq<char>>,
    signature: Seq<char>,
    body: Seq<char>,
    count: nat,
) -> Seq<char> {
    attrs_text(attrs) + signature + " {\n    for i in 0.."@ + dec_str(count)
        + "u64 {\n        let result = std::panic::catch_unwind(|| "@ + body
        + ");\n        if result.is_ok() {\n            return;\n        }\n\n        if i == "@
        + dec_str(count)
        + " - 1 {\n            std::panic::resume_unwind(result.unwrap_err());\n        }\n    }\n}\n"@
}

fn digit_str(d: u64) -> (r: &'static str)
    requires
        d < 10,
    ensures
        r@ == seq![digit_char(d as nat)],
{
    if d == 0 {
        proof {
            reveal_strlit("0");
            assert("0"@ =~= seq![digit_char(0)]);
        }
        "0"
    } else if d == 1 {
        proof {
            reveal_strlit("1");
            assert("1"@ =~= seq![digit_char(1)]);
        }
        "1"
    } else if d == 2 {
        proof {
            reveal_strlit("2");
            assert("2"@ =~= seq![digit_char(2)]);
        }
        "2"
    } else if d == 3 {
        proof {
            reveal_strlit("3");
            assert("3"@ =~= seq![digit_char(3)]);
        }
        "3"
    } else if d == 4 {
        proof {
            reveal_strlit("4");
            assert("4"@ =~= seq![digit_char(4)]);
        }
        "4"
    } else if d == 5 {
        proof {
            reveal_strlit("5");
            assert("5"@ =~= seq![digit_char(5)]);
        }
        "5"
    } else if d == 6 {
        proof {
            reveal_strlit("6");
            assert("6"@ =~= seq![digit_char(6)]);
        }
        "6"
    } else if d == 7 {
        proof {
            reveal_strlit("7");
            assert("7"@ =~= seq![digit_char(7)]);
        }
        "7"
    } else if d == 8 {
        proof {
            reveal_strlit("8");
            assert("8"@ =~= seq![digit_char(8)]);
        }
        "8"
    } else {
        proof {
            reveal_strlit("9");
            assert("9"@ =~= seq![digit_char(9)]);
        }
        "9"
    }
}

/// Appends the decimal rendering of `n` to `out`.
pub fn push_decimal(out: &mut String, n: u64)
    ensures
        final(out)@ == old(out)@ + dec_str(n as nat),
    decreases n,
{
    let ghost pre = out@;
    if n >= 10 {
        proof {
            vstd::arithmetic::div_mod::lemma_div_decreases(n as int, 10);
        }
        push_decimal(out, n / 10);
    }
    out.append(digit_str(n % 10));
    proof {
        if n < 10 {
            assert(n as nat % 10 == n as nat);
        }
        assert(out@ =~= pre + dec_str(n as nat));
    }
}

/// Renders `n` in decimal, exactly as `dec_str` states.
pub fn u64_to_decimal(n: u64) -> (r: String)
    ensures
        r@ == dec_str(n as nat),
{
    let mut out = String::new();
    push_decimal(&mut out, n);
    proof {
        assert(out@ =~= dec_str(n as nat));
    }
    out
}

/// Synthesizes the source text of the replacement function for the given
/// descriptor and configuration, exactly as `generated_text` states.
#[verifier::loop_isolation(false)]
pub fn generate(descriptor: &FnDescriptor, config: Configuration) -> (r: String)
    ensures
        r@ == generated_text(
            descriptor.attrs_view(),
            descriptor.signature@,
            descriptor.body@,
            config.count as nat,
        ),
{
    let ghost avs = descriptor.attrs_view();
    let mut out = String::new();
    let mut i: usize = 0;
    while i < descriptor.attrs.len()
        invariant
            0 <= i <= descriptor.attrs@.len(),
            out@ == attrs_text(avs.take(i as int)),
        decreases descriptor.attrs@.len() - i,
    {
        out.append(descriptor.attrs[i].as_str());
        out.append("\n");
        proof {
            assert(avs.take(i + 1).drop_last() =~= avs.take(i as int));
            assert(avs.take(i + 1).last() == avs[i as int]);
            assert(out@ =~= attrs_text(avs.take(i + 1)));
        }
        i = i + 1;
    }
    proof {
        assert(avs.take(descriptor.attrs@.len() as int) =~= avs);
    }
    out.append(descriptor.signature.as_str());
    out.append(" {\n    for i in 0..");
    push_decimal(&mut out, config.count);
    out.append("u64 {\n        let result = std::panic::catch_unwind(|| ");
    out.append(descriptor.body.as_str());
    out.append(");\n        if result.is_ok() {\n            return;\n        }\n\n        if i == ");
    push_decimal(&mut out, config.count);
    out.append(" - 1 {\n            std::panic::resume_unwind(result.unwrap_err());\n        }\n    }\n}\n");
    proof {
        assert(out@ =~= generated_text(
            descriptor.attrs_view(),
            descriptor.signature@,
            descriptor.body@,
            config.count as nat,
        ));
    }
    out
}

/// Whether the source text parses as a function item.
pub uninterp spec fn fn_parses(source: Seq<char>) -> bool;

/// The attribute texts that parsing a function item yields.
pub uninterp spec fn parsed_attrs(source: Seq<char>) -> Seq<Seq<char>>;

/// The visibility-and-signature text that parsing a function item yields.
pub uninterp spec fn parsed_signature(source: Seq<char>) -> Seq<char>;

/// The body text that parsing a function item yields.
pub uninterp spec fn parsed_body(source: Seq<char>) -> Seq<char>;

/// Relies on `syn::parse_str::<syn::ItemFn>` to read a function item, and on
/// quote's token printing (`ToTokens`) to hand its attributes, its visibility
/// together with its signature, and its body back as text. proc-macro2's
/// fallback backend is forced for the whole call (`fallback::force` /
/// `unforce`), so lexing and printing never delegate to the compiler's
/// `proc_macro` bridge: acceptance and rendering are deterministic in the
/// source text alone, in every environment. A failed parse reports syn's
/// message.
#[verifier::external_body]
fn split_function_source(source: &str) -> (r: Result<FnDescriptor, String>)
    ensures
        r is Ok <==> fn_parses(source@),
        r is Ok ==> r.unwrap().attrs_view() == parsed_attrs(source@) && r.unwrap().signature@
            == parsed_signature(source@) && r.unwrap().body@ == parsed_body(source@),
{
    proc_macro2::fallback::force();
    let r = match syn::parse_str::<syn::ItemFn>(source) {
        Ok(f) => {
            let mut sig = proc_macro2::TokenStream::new();
            quote::ToTokens::to_tokens(&f.vis, &mut sig);
            quote::ToTokens::to_tokens(&f.sig, &mut sig);
            let attrs = f.attrs.iter().map(|a| quote::ToTokens::to_token_stream(a).to_string()).collect();
            let body = quote::ToTokens::to_token_stream(&f.block).to_string();
            Ok(FnDescriptor { attrs, signature: sig.to_string(), body })
        },
        Err(e) => Err(e.to_string()),
    };
    proc_macro2::fallback::unforce();
    r
}

/// Why an expansion was rejected at build time.
#[derive(Debug, PartialEq, Eq)]
pub enum ExpandError {
    /// The attribute's argument list was rejected.
    Arguments(ConfigError),
    /// The annotated item could not be read as a function; the parser's
    /// message is kept for the diagnostic.
    Function(String),
}

/// The whole expansion step: parse the attribute's argument list, split the
/// annotated function's source, and synthesize the replacement function. A
/// rejected argument list surfaces as exactly the error `parse_result` gives;
/// whenever the arguments are accepted and the source parses as a function,
/// the output is owed, and it is exactly the generated wrapper text for the
/// parsed count.
pub fn expand(raw_args: &[u8], source: &str) -> (r: Result<String, ExpandError>)
    ensures
        parse_result(raw_args@) is Err ==> r == Err::<String, ExpandError>(
            ExpandError::Arguments(parse_result(raw_args@).unwrap_err()),
        ),
        parse_result(raw_args@) is Ok ==> (r is Ok <==> fn_parses(source@)),
        r is Ok ==> parse_result(raw_args@) is Ok && r.unwrap()@ == generated_text(
            parsed_attrs(source@),
            parsed_signature(source@),
            parsed_body(source@),
            parse_result(raw_args@).unwrap().count as nat,
        ),
        r is Err && parse_result(raw_args@) is Ok ==> r.unwrap_err() is Function,
{
    let config = match parse_configuration(raw_args) {
        Ok(c) => c,
        Err(e) => {
            return Err(ExpandError::Arguments(e));
        },
    };
    let descriptor = match split_function_source(source) {
        Ok(d) => d,
        Err(m) => {
            return Err(ExpandError::Function(m));
        },
    };
    Ok(generate(&descriptor, config))
}

} // verus!
