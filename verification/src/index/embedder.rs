//! The embedding generator's verifiable surface: dimension validation and
//! the text-normalisation stage. The numeric feature vectors are floating
//! point and are computed outside the library.

use vstd::prelude::*;

use crate::strutil::{is_alnum, is_space, to_lower_spec};

verus! {

#[derive(Debug)]
pub struct EmbeddingGenerator {
    dimension: usize,
}

/// The normalisation applied to text before features are computed:
/// lowercase, keeping only letters, digits and whitespace.
pub open spec fn normalized_text_spec(s: Seq<char>) -> Seq<char> {
    to_lower_spec(s).filter(|c: char| is_alnum(c) || is_space(c))
}

impl EmbeddingGenerator {
    /// A generator for vectors of the given dimension; zero is rejected.
    pub fn new(dimension: usize) -> (r: Result<Self, String>)
        ensures
            dimension == 0 <==> r is Err,
            r matches Ok(g) ==> g.dimension_spec() == dimension,
            r matches Err(e) ==> e@ == "Embedding dimension must be greater than 0"@,
    {
        if dimension == 0 {
            Err(String::from_str("Embedding dimension must be greater than 0"))
        } else {
            Ok(EmbeddingGenerator { dimension })
        }
    }

    pub closed spec fn dimension_spec(&self) -> usize {
        self.dimension
    }

    pub fn get_dimension(&self) -> (r: usize)
        ensures
            r == self.dimension_spec(),
    {
        self.dimension
    }

    /// Lowercases and keeps only letters, digits and whitespace, the text
    /// preparation step of embedding generation.
    pub fn normalized_text(&self, text: &str) -> (r: String)
        ensures
            r@ == normalized_text_spec(text@),
    {
        let cs = crate::strutil::chars_of(text);
        let low = crate::strutil::to_lower(&cs);
        let n = low.len();
        let mut keep: Vec<char> = Vec::new();
        let mut i: usize = 0;
        proof {
            assert(low@.take(0) =~= Seq::<char>::empty());
            assert(keep@ =~= low@.take(0).filter(|c: char| is_alnum(c) || is_space(c)));
        }
        while i < n
            invariant
                0 <= i <= n,
                n == low@.len(),
                low@ == to_lower_spec(cs@),
                cs@ == text@,
                keep@ == low@.take(i as int).filter(|c: char| is_alnum(c) || is_space(c)),
            decreases n - i,
        {
            let c = low[i];
            let u = c as u32;
            let al = (97 <= u && u <= 122) || (65 <= u && u <= 90) || (48 <= u && u <= 57);
            let sp = crate::strutil::space_char(c);
            proof {
                assert(low@.take(i + 1 as int).drop_last() =~= low@.take(i as int));
                assert(low@.take(i + 1 as int).last() == low@[i as int]);
                reveal_with_fuel(Seq::filter, 2);
            }
            if al || sp {
                keep.push(c);
            }
            i += 1;
        }
        proof {
            assert(low@.take(n as int) =~= low@);
        }
        crate::strutil::string_of(&keep)
    }
}

impl Default for EmbeddingGenerator {
    /// The default dimension used throughout the project.
    fn default() -> (r: Self)
        ensures
            r.dimension_spec() == 384,
    {
        EmbeddingGenerator { dimension: 384 }
    }
}

} // verus!
