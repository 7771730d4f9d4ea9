use lekhani_latex::project::{project_layout, project_tex_path};

#[test]
fn documents_get_their_own_folder() {
    assert_eq!(project_tex_path("/tmp/work/thesis.tex"), "/tmp/work/thesis/thesis.tex");
    assert_eq!(project_tex_path("notes.tex"), "notes/notes.tex");
    assert_eq!(project_tex_path("/tmp/work/paper"), "/tmp/work/paper/paper");
    assert_eq!(project_tex_path("/tmp/.hidden"), "/tmp/.hidden/.hidden");
}

#[test]
fn missing_parts_have_defaults() {
    assert_eq!(
        project_layout(None, None, None),
        (".".to_string(), "document".to_string(), "document.tex".to_string())
    );
    assert_eq!(
        project_layout(Some("/a".to_string()), Some("b".to_string()), Some("b.tex".to_string())),
        ("/a".to_string(), "b".to_string(), "b.tex".to_string())
    );
    assert_eq!(project_tex_path("/"), "./document/document.tex");
}
