//! The minimal description of a target language that the template loader
//! needs: its name, its identifier convention and its source-file extension.
use vstd::prelude::*;
use vstd::string::StringExecFns;

verus! {

#[derive(Clone, Copy, Debug, PartialEq, Eq, Structural)]
pub enum VariableNameFormat {
    SnakeCase,
    CamelCase,
    PascalCase,
}

pub struct ProgrammingLanguage {
    pub name: String,
    pub variable_format: VariableNameFormat,
    pub source_file_ext: String,
}

pub open spec fn spec_template_glob(name: Seq<char>, ext: Seq<char>) -> Seq<char> {
    "config/stub_templates/"@ + name + "/*."@ + ext
}

impl ProgrammingLanguage {
    /// The file-system pattern under which this language's templates live.
    pub fn template_glob(&self) -> (r: String)
        ensures
            r@ == spec_template_glob(self.name@, self.source_file_ext@),
    {
        let mut s = String::from_str("config/stub_templates/");
        s.append(self.name.as_str());
        s.append("/*.");
        s.append(self.source_file_ext.as_str());
        s
    }
}

} // verus!
