//! The registry of estimator backends by name, as the bindings and tools
//! select them. Neural backends exist only in builds with ONNX support, and
//! PESTO additionally needs its own opt-in.
use vstd::prelude::*;
use crate::text::str_equals;

verus! {

/// An estimator backend.
#[derive(Debug, Clone, Copy, PartialEq, Eq, Structural)]
pub enum Backend {
    Swipe,
    Pyin,
    PraatAc,
    SwiftF0,
    Crepe,
    Rmvpe,
    Fcpe,
    Pesto,
}

/// The name of a backend.
pub open spec fn backend_name(b: Backend) -> Seq<char> {
    match b {
        Backend::Swipe => "swipe"@,
        Backend::Pyin => "pyin"@,
        Backend::PraatAc => "praat_ac"@,
        Backend::SwiftF0 => "swiftf0"@,
        Backend::Crepe => "crepe"@,
        Backend::Rmvpe => "rmvpe"@,
        Backend::Fcpe => "fcpe"@,
        Backend::Pesto => "pesto"@,
    }
}

/// Names of the backends available in a build, in listing order.
pub open spec fn available_names(onnx: bool, pesto: bool) -> Seq<Seq<char>> {
    let dsp = seq!["swipe"@, "pyin"@, "praat_ac"@];
    let neural = if onnx {
        seq!["swiftf0"@, "crepe"@, "rmvpe"@, "fcpe"@]
    } else {
        Seq::empty()
    };
    let opt_in = if onnx && pesto {
        seq!["pesto"@]
    } else {
        Seq::empty()
    };
    dsp + neural + opt_in
}

/// The backend named `s` in a build, if it is available there.
pub open spec fn backend_named(s: Seq<char>, onnx: bool, pesto: bool) -> Option<Backend> {
    if s == "swipe"@ {
        Some(Backend::Swipe)
    } else if s == "pyin"@ {
        Some(Backend::Pyin)
    } else if s == "praat_ac"@ {
        Some(Backend::PraatAc)
    } else if onnx && s == "swiftf0"@ {
        Some(Backend::SwiftF0)
    } else if onnx && s == "crepe"@ {
        Some(Backend::Crepe)
    } else if onnx && s == "rmvpe"@ {
        Some(Backend::Rmvpe)
    } else if onnx && s == "fcpe"@ {
        Some(Backend::Fcpe)
    } else if onnx && pesto && s == "pesto"@ {
        Some(Backend::Pesto)
    } else {
        None
    }
}

/// `items` joined with `sep` between consecutive items.
pub open spec fn join(items: Seq<Seq<char>>, sep: Seq<char>) -> Seq<char>
    decreases items.len(),
{
    if items.len() == 0 {
        Seq::empty()
    } else if items.len() == 1 {
        items[0]
    } else {
        join(items.drop_last(), sep) + sep + items.last()
    }
}

/// The message for a name that no available backend has.
pub open spec fn unknown_backend_message(s: Seq<char>, onnx: bool, pesto: bool) -> Seq<char> {
    "unknown or disabled algorithm: "@ + s + "; available in this build: "@ + join(
        available_names(onnx, pesto),
        ", "@,
    )
}

impl Backend {
    /// Looks a backend up by name among those available in a build.
    pub fn parse(name: &str, onnx: bool, pesto: bool) -> (r: Option<Backend>)
        ensures
            r == backend_named(name@, onnx, pesto),
    {
        if str_equals(name, "swipe") {
            Some(Backend::Swipe)
        } else if str_equals(name, "pyin") {
            Some(Backend::Pyin)
        } else if str_equals(name, "praat_ac") {
            Some(Backend::PraatAc)
        } else if onnx && str_equals(name, "swiftf0") {
            Some(Backend::SwiftF0)
        } else if onnx && str_equals(name, "crepe") {
            Some(Backend::Crepe)
        } else if onnx && str_equals(name, "rmvpe") {
            Some(Backend::Rmvpe)
        } else if onnx && str_equals(name, "fcpe") {
            Some(Backend::Fcpe)
        } else if onnx && pesto && str_equals(name, "pesto") {
            Some(Backend::Pesto)
        } else {
            None
        }
    }

    /// The name of this backend.
    pub fn name(self) -> (r: &'static str)
        ensures
            r@ == backend_name(self),
    {
        match self {
            Backend::Swipe => "swipe",
            Backend::Pyin => "pyin",
            Backend::PraatAc => "praat_ac",
            Backend::SwiftF0 => "swiftf0",
            Backend::Crepe => "crepe",
            Backend::Rmvpe => "rmvpe",
            Backend::Fcpe => "fcpe",
            Backend::Pesto => "pesto",
        }
    }
}

/// Names of the backends available in a build, DSP backends first.
pub fn available_backends(onnx: bool, pesto: bool) -> (r: Vec<&'static str>)
    ensures
        r@.len() == available_names(onnx, pesto).len(),
        forall|i: int| 0 <= i < r@.len() ==> (#[trigger] r@[i])@ == available_names(onnx, pesto)[i],
{
    let mut v: Vec<&'static str> = Vec::new();
    v.push("swipe");
    v.push("pyin");
    v.push("praat_ac");
    if onnx {
        v.push("swiftf0");
        v.push("crepe");
        v.push("rmvpe");
        v.push("fcpe");
    }
    if onnx && pesto {
        v.push("pesto");
    }
    v
}

/// The message for a name that no available backend has, listing the
/// available ones.
pub fn unknown_backend_message_for(name: &str, onnx: bool, pesto: bool) -> (m: String)
    ensures
        m@ == unknown_backend_message(name@, onnx, pesto),
{
    let names = available_backends(onnx, pesto);
    let mut m = String::from_str("unknown or disabled algorithm: ");
    m.append(name);
    m.append("; available in this build: ");
    let ghost prefix = m@;
    let ghost all = available_names(onnx, pesto);
    let mut i: usize = 0;
    while i < names.len()
        invariant
            i <= names@.len(),
            names@.len() == all.len(),
            forall|j: int| 0 <= j < names@.len() ==> (#[trigger] names@[j])@ == all[j],
            m@ == prefix + join(all.take(i as int), ", "@),
        decreases names@.len() - i,
    {
        if i > 0 {
            m.append(", ");
        }
        m.append(names[i]);
        i = i + 1;
        assert(all.take(i as int).drop_last() =~= all.take(i - 1));
        assert(all.take(i as int).last() == all[i - 1]);
        proof {
            if i == 1 {
                assert(join(all.take(1), ", "@) == all[0]);
                assert(join(all.take(0), ", "@) == Seq::<char>::empty());
            }
        }
        assert(m@ =~= prefix + join(all.take(i as int), ", "@));
    }
    assert(all.take(names@.len() as int) =~= all);
    m
}

/// Law: a name is accepted exactly when it is one of the names listed as
/// available in that build.
pub proof fn lemma_parse_accepts_listed_names(s: Seq<char>, onnx: bool, pesto: bool)
    ensures
        backend_named(s, onnx, pesto) is Some <==> available_names(onnx, pesto).contains(s),
{
    let all = available_names(onnx, pesto);
    let dsp = seq!["swipe"@, "pyin"@, "praat_ac"@];
    if onnx && pesto {
        assert(all =~= dsp + seq!["swiftf0"@, "crepe"@, "rmvpe"@, "fcpe"@] + seq!["pesto"@]);
    } else if onnx {
        assert(all =~= dsp + seq!["swiftf0"@, "crepe"@, "rmvpe"@, "fcpe"@]);
    } else {
        assert(all =~= dsp);
    }
    if backend_named(s, onnx, pesto) is Some {
        if s == "swipe"@ {
            assert(all[0] == s);
        } else if s == "pyin"@ {
            assert(all[1] == s);
        } else if s == "praat_ac"@ {
            assert(all[2] == s);
        } else if s == "swiftf0"@ {
            assert(all[3] == s);
        } else if s == "crepe"@ {
            assert(all[4] == s);
        } else if s == "rmvpe"@ {
            assert(all[5] == s);
        } else if s == "fcpe"@ {
            assert(all[6] == s);
        } else {
            assert(all[7] == s);
        }
    }
    if all.contains(s) {
        let i = choose|i: int| 0 <= i < all.len() && all[i] == s;
        assert(0 <= i < all.len() && all[i] == s);
        if i == 0 {
            assert(s == "swipe"@);
        } else if i == 1 {
            assert(s == "pyin"@);
        } else if i == 2 {
            assert(s == "praat_ac"@);
        } else if i == 3 {
            assert(s == "swiftf0"@);
        } else if i == 4 {
            assert(s == "crepe"@);
        } else if i == 5 {
            assert(s == "rmvpe"@);
        } else if i == 6 {
            assert(s == "fcpe"@);
        } else {
            assert(s == "pesto"@);
        }
    }
}

/// Law: a listed name denotes the backend of that name.
pub proof fn lemma_backend_name_round_trip(b: Backend)
    ensures
        backend_named(backend_name(b), true, true) == Some(b),
{
    reveal_strlit("swipe");
    reveal_strlit("pyin");
    reveal_strlit("praat_ac");
    reveal_strlit("swiftf0");
    reveal_strlit("crepe");
    reveal_strlit("rmvpe");
    reveal_strlit("fcpe");
    reveal_strlit("pesto");
    assert("swipe"@.len() == 5 && "pyin"@.len() == 4 && "praat_ac"@.len() == 8);
    assert("swiftf0"@.len() == 7 && "crepe"@.len() == 5 && "rmvpe"@.len() == 5);
    assert("fcpe"@.len() == 4 && "pesto"@.len() == 5);
    assert("swipe"@[1] != "pyin"@[1]);
    assert("swipe"@[0] != "crepe"@[0]);
    assert("swipe"@[0] != "rmvpe"@[0]);
    assert("swipe"@[0] != "pesto"@[0]);
    assert("crepe"@[0] != "rmvpe"@[0]);
    assert("crepe"@[0] != "pesto"@[0]);
    assert("rmvpe"@[0] != "pesto"@[0]);
    assert("pyin"@[0] != "fcpe"@[0]);
}

/// Law (names mean what they say): each backend is selected by its own
/// name, and only by it, in the builds where it is available, and reports
/// that same name.
pub proof fn lemma_backend_names_literal(s: Seq<char>, onnx: bool, pesto: bool)
    ensures
        backend_named(s, onnx, pesto) == Some(Backend::Swipe) <==> s == "swipe"@,
        backend_named(s, onnx, pesto) == Some(Backend::Pyin) <==> s == "pyin"@,
        backend_named(s, onnx, pesto) == Some(Backend::PraatAc) <==> s == "praat_ac"@,
        backend_named(s, onnx, pesto) == Some(Backend::SwiftF0) <==> (onnx && s == "swiftf0"@),
        backend_named(s, onnx, pesto) == Some(Backend::Crepe) <==> (onnx && s == "crepe"@),
        backend_named(s, onnx, pesto) == Some(Backend::Rmvpe) <==> (onnx && s == "rmvpe"@),
        backend_named(s, onnx, pesto) == Some(Backend::Fcpe) <==> (onnx && s == "fcpe"@),
        backend_named(s, onnx, pesto) == Some(Backend::Pesto) <==> (onnx && pesto && s
            == "pesto"@),
        backend_name(Backend::Swipe) == "swipe"@,
        backend_name(Backend::Pyin) == "pyin"@,
        backend_name(Backend::PraatAc) == "praat_ac"@,
        backend_name(Backend::SwiftF0) == "swiftf0"@,
        backend_name(Backend::Crepe) == "crepe"@,
        backend_name(Backend::Rmvpe) == "rmvpe"@,
        backend_name(Backend::Fcpe) == "fcpe"@,
        backend_name(Backend::Pesto) == "pesto"@,
{
    reveal_strlit("swipe");
    reveal_strlit("pyin");
    reveal_strlit("praat_ac");
    reveal_strlit("swiftf0");
    reveal_strlit("crepe");
    reveal_strlit("rmvpe");
    reveal_strlit("fcpe");
    reveal_strlit("pesto");
    assert("swipe"@.len() == 5 && "pyin"@.len() == 4 && "praat_ac"@.len() == 8);
    assert("swiftf0"@.len() == 7 && "crepe"@.len() == 5 && "rmvpe"@.len() == 5);
    assert("fcpe"@.len() == 4 && "pesto"@.len() == 5);
    assert("swipe"@[0] != "crepe"@[0]);
    assert("swipe"@[0] != "rmvpe"@[0]);
    assert("swipe"@[0] != "pesto"@[0]);
    assert("crepe"@[0] != "rmvpe"@[0]);
    assert("crepe"@[0] != "pesto"@[0]);
    assert("rmvpe"@[0] != "pesto"@[0]);
    assert("pyin"@[0] != "fcpe"@[0]);
}

} // verus!
