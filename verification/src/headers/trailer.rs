//! The `Trailer` header.

use crate::errors::{Error, ErrorView};
use crate::headers::{is_valid_header_name, valid_header_name, Header};
use crate::text::{join, join_strings};
use crate::helpers::search::split;
use crate::text::{chars_of, split_text, string_views, texts, to_string, trim, trim_text};
use vstd::prelude::*;
use vstd::string::*;

verus! {

/// The names of the fields that a chunked message announces for its trailer.
#[derive(Debug)]
pub struct Trailer {
    fields: Vec<String>,
}

impl View for Trailer {
    type V = Seq<Seq<char>>;

    closed spec fn view(&self) -> Seq<Seq<char>> {
        string_views(self.fields@)
    }
}

/// The field names among the elements of a list: each element without the
/// blanks around it, the empty ones left out. A name that the catalog does
/// not know is an error, the first such one in the order of the list.
pub open spec fn trailer_names(parts: Seq<Seq<char>>) -> Result<Seq<Seq<char>>, ErrorView>
    decreases parts.len(),
{
    if parts.len() == 0 {
        Ok(Seq::empty())
    } else {
        match trailer_names(parts.drop_last()) {
            Err(e) => Err(e),
            Ok(names) => {
                let name = trim(parts.last());
                if name.len() == 0 {
                    Ok(names)
                } else if !valid_header_name(name) {
                    Err(ErrorView::InvalidHeaderField(name))
                } else {
                    Ok(names.push(name))
                }
            },
        }
    }
}

/// What a `Trailer` value stands for.
pub open spec fn trailer_of(value: Seq<char>) -> Result<Seq<Seq<char>>, ErrorView> {
    trailer_names(split(value, seq![',']))
}

/// An error among the first elements is the error of the whole list.
pub proof fn lemma_trailer_names_error(parts: Seq<Seq<char>>, i: int)
    requires
        0 <= i <= parts.len(),
        trailer_names(parts.take(i)) is Err,
    ensures
        trailer_names(parts) == trailer_names(parts.take(i)),
    decreases parts.len() - i,
{
    if i == parts.len() {
        assert(parts.take(i) =~= parts);
    } else {
        assert(parts.take(i + 1).drop_last() =~= parts.take(i));
        lemma_trailer_names_error(parts, i + 1);
    }
}

impl Trailer {
    /// Reads a `Trailer` value.
    pub fn try_from(value: &str) -> (r: Result<Trailer, Error>)
        ensures
            match trailer_of(value@) {
                Ok(names) => r matches Ok(h) && h@ == names,
                Err(e) => r matches Err(x) && x@ == e,
            },
    {
        let text = chars_of(value);
        let comma: Vec<char> = vec![','];
        assert(comma@ =~= seq![',']);
        let parts = split_text(&text, &comma);
        let ghost all = split(value@, seq![',']);
        let mut fields: Vec<String> = Vec::new();
        let mut i: usize = 0;
        assert(all.take(0) =~= Seq::<Seq<char>>::empty());
        assert(string_views(fields@) =~= Seq::<Seq<char>>::empty());
        while i < parts.len()
            invariant
                i <= parts.len(),
                texts(parts@) == all,
                all == split(value@, seq![',']),
                trailer_names(all.take(i as int)) == Ok::<Seq<Seq<char>>, ErrorView>(
                    string_views(fields@),
                ),
            decreases parts.len() - i,
        {
            let name = trim_text(&parts[i]);
            assert(all[i as int] == parts@[i as int]@);
            assert(all.take(i + 1).drop_last() =~= all.take(i as int));
            assert(all.take(i + 1).last() == all[i as int]);
            if name.len() > 0 {
                let name = to_string(&name);
                if !is_valid_header_name(name.as_str()) {
                    proof {
                        assert(trailer_names(all.take(i + 1)) == Err::<Seq<Seq<char>>, ErrorView>(
                            ErrorView::InvalidHeaderField(name@),
                        ));
                        lemma_trailer_names_error(all, i + 1);
                    }
                    return Err(Error::InvalidHeaderField(name));
                }
                let ghost before = string_views(fields@);
                fields.push(name);
                assert(string_views(fields@) =~= before.push(name@));
            }
            i += 1;
        }
        assert(all.take(i as int) =~= all);
        Ok(Trailer { fields })
    }
}

impl Header for Trailer {
    open spec fn well_formed(&self) -> bool {
        true
    }

    open spec fn field_name(&self) -> Seq<char> {
        "trailer"@
    }

    open spec fn field_value(&self) -> Seq<char> {
        join(self@, ", "@)
    }

    fn name(&self) -> (r: &str) {
        "trailer"
    }

    fn value(&self) -> (r: String) {
        join_strings(&self.fields, ", ")
    }
}

} // verus!
