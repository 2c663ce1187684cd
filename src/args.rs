use vstd::prelude::*;

verus! {

/// Message for an argument list without even the program's name.
pub const MESSAGE_NO_ARGS: &'static str = "command args hould never be 0, something has gone horribly wrong";

/// Message for an argument list that holds no text to translate.
pub const MESSAGE_MISSING_ARGS: &'static str = "Must provide a string to convert to rot13!";

/// Why the command-line arguments hold no text.
#[derive(Debug, Clone, Copy, PartialEq, Eq, Structural)]
pub enum ArgsError {
    /// The list is empty: not even the program's name is there.
    NoArgs,
    /// Only the program's name is there.
    MissingText,
}

impl ArgsError {
    /// The message shown to the user for this error.
    pub fn message(&self) -> (r: String)
        ensures
            r@ == match self {
                ArgsError::NoArgs => MESSAGE_NO_ARGS@,
                ArgsError::MissingText => MESSAGE_MISSING_ARGS@,
            },
    {
        match self {
            ArgsError::NoArgs => String::from_str(MESSAGE_NO_ARGS),
            ArgsError::MissingText => String::from_str(MESSAGE_MISSING_ARGS),
        }
    }
}

/// The words joined into one string, with a single space between
/// neighbours.
pub open spec fn join_words(ws: Seq<Seq<char>>) -> Seq<char>
    decreases ws.len(),
{
    if ws.len() == 0 {
        Seq::empty()
    } else if ws.len() == 1 {
        ws[0]
    } else {
        join_words(ws.drop_last()) + seq![' '] + ws.last()
    }
}

/// The characters of each argument.
pub open spec fn words_of(args: Seq<String>) -> Seq<Seq<char>> {
    args.map_values(|s: String| s@)
}

/// Joins the arguments after the program's name (the first one) into the
/// text to translate, separated by single spaces.
pub fn parse_args(args: Vec<String>) -> (r: Result<String, ArgsError>)
    ensures
        args.len() == 0 ==> r == Err::<String, ArgsError>(ArgsError::NoArgs),
        args.len() == 1 ==> r == Err::<String, ArgsError>(ArgsError::MissingText),
        args.len() >= 2 ==> r is Ok && r->Ok_0@ == join_words(words_of(args@).drop_first()),
{
    if args.len() == 0 {
        return Err(ArgsError::NoArgs);
    }
    if args.len() == 1 {
        return Err(ArgsError::MissingText);
    }
    let ghost ws = words_of(args@);
    let mut text = args[1].clone();
    assert(ws.subrange(1, 2) =~= seq![args@[1]@]);
    let mut i: usize = 2;
    while i < args.len()
        invariant
            2 <= i <= args.len(),
            ws == words_of(args@),
            text@ == join_words(ws.subrange(1, i as int)),
        decreases args.len() - i,
    {
        let ghost before = text@;
        text.append(" ");
        text.append(args[i].as_str());
        proof {
            reveal_strlit(" ");
            let joined = ws.subrange(1, i + 1);
            assert(joined.drop_last() =~= ws.subrange(1, i as int));
            assert(joined.last() == args@[i as int]@);
            assert(text@ =~= before + seq![' '] + joined.last());
        }
        i = i + 1;
    }
    assert(ws.subrange(1, ws.len() as int) =~= ws.drop_first());
    Ok(text)
}

} // verus!
