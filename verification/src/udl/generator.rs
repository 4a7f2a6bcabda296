//! What every backend offers: source text for an enumeration, for a class
//! and for a whole document.
use crate::text::{join_with, push_text, same_string, Text};
use crate::udl::class::{Class, ClassView};
use crate::udl::document::{DocumentView, UDL};
use crate::udl::enums::{Enum, EnumView};
use vstd::prelude::*;
use vstd::string::*;

verus! {

/// The comment that carries a description: `/// `, the description and a
/// line break; nothing where there is no description.
pub open spec fn doc_comment(description: Option<Text>) -> Text {
    match description {
        Some(text) => "/// "@ + text + "\n"@,
        None => Seq::empty(),
    }
}

/// Appends the comment that carries `description` to `code`.
pub fn append_doc_comment(code: &mut String, description: Option<&String>)
    ensures
        final(code)@ == old(code)@ + doc_comment(description.deep_view()),
{
    match description {
        Some(text) => {
            code.append("/// ");
            code.append(text.as_str());
            code.append("\n");
            assert(code@ =~= old(code)@ + doc_comment(description.deep_view()));
        },
        None => {
            assert(code@ =~= old(code)@ + doc_comment(description.deep_view()));
        },
    }
}

/// The name by which a class refers to its error enumeration: the empty
/// name where it refers to none.
pub open spec fn error_name(class: ClassView) -> Text {
    match class.error {
        Some(name) => name,
        None => Seq::empty(),
    }
}

/// The first enumeration among `enums` with the name `name`.
pub open spec fn enum_named(enums: Seq<EnumView>, name: Text) -> Option<EnumView>
    decreases enums.len(),
{
    if enums.len() == 0 {
        None
    } else if enums[0].id == name {
        Some(enums[0])
    } else {
        enum_named(enums.skip(1), name)
    }
}

/// The error enumeration of a class: the first enumeration of the document
/// with the name by which the class refers to it.
pub open spec fn error_enum_of(enums: Seq<EnumView>, class: ClassView) -> Option<EnumView> {
    enum_named(enums, error_name(class))
}

/// The error enumeration of `class` among `enums`.
pub fn find_error_enum<'a>(enums: &'a Vec<Enum>, class: &Class) -> (found: Option<&'a Enum>)
    ensures
        optional_enum(found) == error_enum_of(enums@.map_values(|e: Enum| e@), class@),
{
    let ghost models = enums@.map_values(|e: Enum| e@);
    let name = match &class.error {
        Some(name) => name.clone(),
        None => String::new(),
    };
    let mut i: usize = 0;
    assert(models.skip(0) =~= models);
    while i < enums.len()
        invariant
            i <= enums.len(),
            models == enums@.map_values(|e: Enum| e@),
            name@ == error_name(class@),
            enum_named(models, name@) == enum_named(models.skip(i as int), name@),
        decreases enums.len() - i,
    {
        assert(models.skip(i as int)[0] == enums[i as int]@);
        assert(models.skip(i as int).skip(1) =~= models.skip(i + 1));
        if same_string(&enums[i].id, &name) {
            return Some(&enums[i]);
        }
        i += 1;
    }
    None
}

/// The list `imports` with `import` at its end, unless the list holds it
/// already.
pub open spec fn with_import(imports: Seq<Text>, import: Text) -> Seq<Text> {
    if imports.contains(import) {
        imports
    } else {
        imports.push(import)
    }
}

/// The list `imports` with each import of `more` that it does not hold yet,
/// in the order of `more`.
pub open spec fn merged_imports(imports: Seq<Text>, more: Seq<Text>) -> Seq<Text>
    decreases more.len(),
{
    if more.len() == 0 {
        imports
    } else {
        with_import(merged_imports(imports, more.drop_last()), more.last())
    }
}

/// The imports of all the lists of `lists`, each once, in the order in
/// which they first stand.
pub open spec fn collected_imports(lists: Seq<Seq<Text>>) -> Seq<Text>
    decreases lists.len(),
{
    if lists.len() == 0 {
        Seq::empty()
    } else {
        merged_imports(collected_imports(lists.drop_last()), lists.last())
    }
}

/// The blocks one after another, each followed by an empty line.
pub open spec fn blocks_text(blocks: Seq<Text>) -> Text
    decreases blocks.len(),
{
    if blocks.len() == 0 {
        Seq::empty()
    } else {
        blocks_text(blocks.drop_last()) + blocks.last() + "\n\n"@
    }
}

/// The text of one block more is the text of the blocks before it, the
/// block and an empty line.
pub proof fn lemma_blocks_step(blocks: Seq<Text>, i: int)
    requires
        0 <= i < blocks.len(),
    ensures
        blocks_text(blocks.take(i + 1)) == blocks_text(blocks.take(i)) + blocks[i] + "\n\n"@,
{
    let next = blocks.take(i + 1);
    assert(next.drop_last() =~= blocks.take(i));
    assert(next.last() == blocks[i]);
}

/// The imports of one list more are those of the lists before it, merged
/// with the list.
pub proof fn lemma_imports_step(lists: Seq<Seq<Text>>, i: int)
    requires
        0 <= i < lists.len(),
    ensures
        collected_imports(lists.take(i + 1)) == merged_imports(
            collected_imports(lists.take(i)),
            lists[i],
        ),
{
    let next = lists.take(i + 1);
    assert(next.drop_last() =~= lists.take(i));
    assert(next.last() == lists[i]);
}

/// The source text of a document, put together from the source texts of
/// its enumerations and of its classes and from the imports that each class
/// needs: the enumerations, then the classes, then the imports, each import
/// once and on a line of its own.
pub open spec fn assembled(enums: Seq<Text>, classes: Seq<Text>, imports: Seq<Seq<Text>>) -> Text {
    blocks_text(enums) + blocks_text(classes) + join_with(collected_imports(imports), "\n"@)
}

/// Whether the list `imports` holds `import`.
fn holds_import(imports: &Vec<String>, import: &String) -> (r: bool)
    ensures
        r == imports.deep_view().contains(import@),
{
    let mut i: usize = 0;
    while i < imports.len()
        invariant
            i <= imports.len(),
            forall|k: int| 0 <= k < i ==> imports.deep_view()[k] != import@,
        decreases imports.len() - i,
    {
        if same_string(&imports[i], import) {
            assert(imports.deep_view()[i as int] == import@);
            return true;
        }
        i += 1;
    }
    false
}

/// Adds to `imports` each import of `more` that it does not hold yet.
pub fn merge_imports(imports: &mut Vec<String>, more: &Vec<String>)
    ensures
        final(imports).deep_view() == merged_imports(old(imports).deep_view(), more.deep_view()),
{
    let ghost start = imports.deep_view();
    let ghost added = more.deep_view();
    let mut i: usize = 0;
    assert(added.take(0) =~= Seq::empty());
    while i < more.len()
        invariant
            i <= more.len(),
            added == more.deep_view(),
            imports.deep_view() == merged_imports(start, added.take(i as int)),
        decreases more.len() - i,
    {
        proof {
            let next = added.take(i + 1);
            assert(next.drop_last() =~= added.take(i as int));
            assert(next.last() == more[i as int]@);
        }
        if !holds_import(imports, &more[i]) {
            push_text(imports, more[i].clone());
        }
        i += 1;
    }
    assert(added.take(more.len() as int) =~= added);
}

/// The model of an enumeration that may be absent.
pub open spec fn optional_enum(e: Option<&Enum>) -> Option<EnumView> {
    match e {
        Some(e) => Some(e@),
        None => None,
    }
}

/// A backend: it renders the enumerations and classes of a document as
/// source text of one target language. The spec functions say what text that
/// is; the executable functions compute it.
pub trait LangGenerator {
    /// The extension of the files that hold the backend's output.
    spec fn extension_text(&self) -> Text;

    /// The source text of an enumeration.
    spec fn enum_text(&self, enumm: EnumView) -> Text;

    /// The classes that the backend can render, each with the error
    /// enumeration that it refers to.
    spec fn accepts(&self, class: ClassView, error_enum: Option<EnumView>) -> bool;

    /// The source text of a class.
    spec fn class_text(&self, class: ClassView, error_enum: Option<EnumView>) -> Text;

    /// The import statements that the source text of a class needs.
    spec fn class_imports(&self, class: ClassView, error_enum: Option<EnumView>) -> Seq<Text>;

    /// The documents that the backend can render.
    spec fn accepts_document(&self, document: DocumentView) -> bool;

    /// The source text of a document.
    spec fn document_text(&self, document: DocumentView) -> Text;

    /// The program that formats a file of the backend's output; `None`
    /// where the backend has none.
    spec fn formatter_text(&self) -> Option<Text>;

    /// A backend renders a document exactly when it renders each class of
    /// it, with the error enumeration that the class refers to.
    proof fn lemma_accepts_document(&self, document: DocumentView)
        ensures
            self.accepts_document(document) <==> forall|i: int|
                0 <= i < document.models.len() ==> self.accepts(
                    #[trigger] document.models[i],
                    error_enum_of(document.enums, document.models[i]),
                ),
    ;

    /// No backend renders a class that has a validator and refers to no
    /// error enumeration.
    proof fn lemma_validator_needs_error(
        &self,
        class: ClassView,
        error_enum: Option<EnumView>,
    )
        requires
            class.has_validator(),
            class.error is None,
        ensures
            !self.accepts(class, error_enum),
    ;

    /// The source text of a document is put together from the source
    /// texts of its enumerations and of its classes, in the order of the
    /// document, and from the imports that its classes need.
    proof fn lemma_document_text(&self, document: DocumentView)
        ensures
            self.document_text(document) == assembled(
                Seq::new(document.enums.len(), |i: int| self.enum_text(document.enums[i])),
                Seq::new(
                    document.models.len(),
                    |i: int|
                        self.class_text(
                            document.models[i],
                            error_enum_of(document.enums, document.models[i]),
                        ),
                ),
                Seq::new(
                    document.models.len(),
                    |i: int|
                        self.class_imports(
                            document.models[i],
                            error_enum_of(document.enums, document.models[i]),
                        ),
                ),
            ),
    ;

    /// The extension of the files that hold the backend's output.
    fn extension(&self) -> (ext: &str)
        ensures
            ext@ == self.extension_text(),
    ;

    /// The source text of `enumm`.
    fn gen_enum(&self, enumm: &Enum) -> (code: String)
        ensures
            code@ == self.enum_text(enumm@),
    ;

    /// The source text of `class`, which refers to `error_enum` for its
    /// errors, and the import statements that the text needs.
    fn gen_class(&self, class: &Class, error_enum: Option<&Enum>) -> (r: (String, Vec<String>))
        requires
            self.accepts(class@, optional_enum(error_enum)),
        ensures
            r.0@ == self.class_text(class@, optional_enum(error_enum)),
            r.1.deep_view() == self.class_imports(class@, optional_enum(error_enum)),
    ;

    /// Whether the backend renders `class`, which refers to `error_enum`
    /// for its errors.
    fn accepts_class(&self, class: &Class, error_enum: Option<&Enum>) -> (ok: bool)
        ensures
            ok == self.accepts(class@, optional_enum(error_enum)),
    ;

    /// The source text of the document `udl`.
    fn generate(&self, udl: &UDL) -> (code: String)
        requires
            self.accepts_document(udl@),
        ensures
            code@ == self.document_text(udl@),
    ;

    /// The program that formats a file of the backend's output.
    fn formatter(&self) -> (program: Option<&str>)
        ensures
            program.deep_view() == self.formatter_text(),
    ;
}

/// The first class of `udl` that `backend` does not render, by its place
/// among the classes; `None` where the backend renders the document.
pub fn first_rejected_class<G: LangGenerator>(backend: &G, udl: &UDL) -> (r: Option<usize>)
    ensures
        r is None <==> backend.accepts_document(udl@),
        r matches Some(at) ==> at < udl.models.len() && !backend.accepts(
            udl@.models[at as int],
            error_enum_of(udl@.enums, udl@.models[at as int]),
        ) && forall|i: int|
            0 <= i < at ==> backend.accepts(
                #[trigger] udl@.models[i],
                error_enum_of(udl@.enums, udl@.models[i]),
            ),
{
    proof {
        backend.lemma_accepts_document(udl@);
    }
    let mut at: usize = 0;
    while at < udl.models.len()
        invariant
            at <= udl.models.len(),
            forall|i: int|
                0 <= i < at ==> backend.accepts(
                    #[trigger] udl@.models[i],
                    error_enum_of(udl@.enums, udl@.models[i]),
                ),
            backend.accepts_document(udl@) <==> forall|i: int|
                0 <= i < udl@.models.len() ==> backend.accepts(
                    #[trigger] udl@.models[i],
                    error_enum_of(udl@.enums, udl@.models[i]),
                ),
        decreases udl.models.len() - at,
    {
        let class = &udl.models[at];
        assert(udl@.models[at as int] == class@);
        let error_enum = find_error_enum(&udl.enums, class);
        if !backend.accepts_class(class, error_enum) {
            return Some(at);
        }
        at += 1;
    }
    None
}

/// Two runs of a backend on one document give the same text, character for
/// character: what `generate` returns is a function of the backend and the
/// document alone.
pub proof fn lemma_generation_is_deterministic<G: LangGenerator>(
    backend: G,
    document: DocumentView,
    first: Text,
    second: Text,
)
    requires
        first == backend.document_text(document),
        second == backend.document_text(document),
    ensures
        first == second,
{
}

} // verus!
